//! Layer normalization over dense `(B, T, C)` activation tensors stored
//! row-major in flat buffers: a forward pass that normalizes each position's
//! channel vector and applies a per-channel scale and shift, and a backward
//! pass that accumulates the matching gradients.
//!
//! Both passes are generic over [`scalar::Scalar`], whose operations are
//! named by spec functions. Their contracts state every value they write as
//! an expression over those operations, in the order performed, together
//! with exactly which buffer lengths an invocation accepts and that a refused
//! invocation writes nothing. The shape model proves that every flat offset
//! stays in bounds and that distinct positions never share one.
pub mod shape;
pub mod validate;
pub mod scalar;
pub mod forward;
pub mod backward;
