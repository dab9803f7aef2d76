//! A fixed-capacity network packet: a bounded payload with a CRC-16/X.25
//! integrity checksum and a fixed-width little-endian wire encoding.

pub mod packet;
