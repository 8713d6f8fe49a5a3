//! A toy file codec that stores a byte buffer as the coefficients of the
//! unique polynomial interpolating its chunk values.
//!
//! The byte buffer is cut into fixed-width chunks; each chunk, read as a
//! little-endian integer, becomes one sample value. The samples, taken at
//! the integer nodes `0..chunk_count`, determine a unique polynomial whose
//! coefficients are persisted in a small binary container together with the
//! chunk geometry and the original file extension. Decoding re-evaluates the
//! polynomial at each node and reassembles the chunk bytes.
//!
//! Everything on integers and bytes (chunking, sampling, the container
//! format, reassembly) lives here, fully specified and verified. The
//! floating-point interpolation itself is numeric work that a caller
//! performs between the verified stages.

pub mod chunker;
pub mod container;
pub mod errors;
pub mod simple_cbf;

pub use errors::CbfError;
pub use simple_cbf::SimpleCbF;
