//! Window aggregation and execution hand-off for a streaming query engine
//! whose stages run as short-lived functions.

pub mod arena;
pub mod batch;
pub mod bitmap;
pub mod context;
pub mod encoding;
pub mod envelope;
pub mod error;
pub mod payload;
pub mod plan;
