//! Reading and writing of bit-packed genotype matrices and their two text
//! sidecars: the two-bit codec with its header and length checks, row and
//! column selections, the planning and decoding of a seek-per-column read, and
//! the sidecar metadata with its lazy parse, skip set and count checks.

pub mod bed;
pub mod codec;
pub mod engine;
pub mod error;
pub mod index;
pub mod matrix;
pub mod metadata;
pub mod options;
pub mod text;
