//! Export of a bucketed evaluation network into a fixed-layout binary file:
//! the parameter schema, the quantizer, the king-square bucket convention and
//! the exporter that writes header and buckets.
pub mod bucket;
pub mod quantize;
pub mod schema;
pub mod export;
