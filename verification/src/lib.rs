//! Streaming JSON: values are sent as token streams in which every array
//! element and every object member travels in a nested stream of its own.
//! The crate serialises values into such streams, reads them back, copies and
//! skips them, and evaluates accessor paths directly on a stream.

pub mod types;
pub mod model;
pub mod utils;
pub mod json;
pub mod serialization;
pub mod laws;
pub mod equality;
