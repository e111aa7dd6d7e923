//! Streaming downsampling transforms over time-ordered numeric samples: a
//! largest-triangle-three-buckets visual downsampler and an adaptive
//! smoothing pipeline, both consumed as streaming aggregates that accumulate
//! timestamp/value rows and produce one fixed-size output series.

pub mod error;
pub mod series;
pub mod asap;
pub mod fbits;
pub mod lttb;
