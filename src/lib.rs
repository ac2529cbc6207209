//! A UAVCAN v0 transport core: bit-level (de)serialization of primitive
//! fields, multi-frame framing with a transport CRC and toggle bits,
//! frame identifiers and priority, and receive-side session management.
pub mod bits;
pub mod transfer;
pub mod types;
pub mod structure;
pub mod serializer;
pub mod crc;
pub mod frame;
pub mod header;
pub mod frame_generator;
pub mod session;
pub mod node;
pub mod reassembly;
