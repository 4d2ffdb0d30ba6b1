//! Decoding of FPGA configuration bitstreams: the metadata header, the stream
//! of 32-bit configuration packets, and the run-compressed word listing.
pub mod bits;
pub mod dump;
pub mod error;
pub mod header;
pub mod packet;
pub mod runs;
pub mod stream;
