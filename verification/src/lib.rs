//! Cursor-based binary buffer codec: fixed-width integers in either byte
//! order, 3-byte "triad" values, and LEB128-style variable-length integers
//! with zigzag mapping for signed values, together with a stream cursor that
//! reads and writes them against an owned byte buffer.

pub mod binary;
pub mod binary_stream;
pub mod bytes;
pub mod varint;
