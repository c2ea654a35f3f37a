//! Decoders for the records that a Linux kernel exposes under `/proc` and
//! `/sys`: the metrics table of the GPU, the socket tables, the IPv4
//! forwarding trie and routing table, and the smaller tables of the
//! processor, the memory, the storage and the input devices.
//!
//! Every function takes the content of a kernel file as a plain value and
//! returns typed records; reading the files is left to the caller. A
//! function that needs its input in some shape says so in `requires`, and a
//! function beside it tells whether an input has that shape.
#![allow(non_snake_case)]
#![allow(non_camel_case_types)]

pub mod bus;
pub mod cpu;
pub mod export;
pub mod gpu;
pub mod motherboard;
pub mod network;
pub mod ram;
pub mod sensors;
pub mod storage;
pub mod subnet;
pub mod text;
pub mod topology;
pub mod utils;
