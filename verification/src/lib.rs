//! A read-only FAT32 filesystem driver over a cached block device.
//!
//! The on-disk structures (master boot record, BIOS parameter block, file
//! allocation table, directory entries) are decoded field by field from
//! little-endian bytes. Sectors reach the driver through a write-back cache
//! that never evicts, so every result is stated over the cached sectors.

pub mod cache;
pub mod cluster;
pub mod dir;
pub mod ebpb;
pub mod fat;
pub mod geometry;
pub mod mbr;
pub mod path;
pub mod traits;
pub mod util;
pub mod vfat;
