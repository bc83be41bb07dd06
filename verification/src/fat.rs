//! Entries of the file allocation table.

use crate::cluster::Cluster;
use vstd::prelude::*;

verus! {

/// What a table entry says of its cluster.
#[derive(Debug, Clone, Copy, PartialEq, Eq, Structural)]
pub enum Status {
    /// The FAT entry corresponds to an unused (free) cluster.
    Free,
    /// The FAT entry/cluster is reserved.
    Reserved,
    /// The FAT entry corresponds to a valid data cluster. The next cluster in
    /// the chain is `Cluster`.
    Data(Cluster),
    /// The FAT entry corresponds to a bad (disk failed) cluster.
    Bad,
    /// The FAT entry corresponds to a valid data cluster. The corresponding
    /// cluster is the last in its chain.
    Eoc(u32),
}

/// A raw 32-bit value read from the table.
#[derive(Debug, Clone, Copy, PartialEq, Eq, Structural)]
pub struct FatEntry(pub u32);

/// The low 28 bits of a raw entry; the top four are flags.
pub open spec fn significant(raw: u32) -> int {
    (raw as int) % 0x1000_0000
}

/// The status that the 28 significant bits `v` of an entry stand for.
pub open spec fn status_of(v: int) -> Status
    recommends
        0 <= v < 0x1000_0000,
{
    if v == 0 {
        Status::Free
    } else if v == 1 || v == 0x0FFF_FFF6 {
        Status::Reserved
    } else if v <= 0x0FFF_FFF5 {
        Status::Data(Cluster(v as u32))
    } else if v == 0x0FFF_FFF7 {
        Status::Bad
    } else {
        Status::Eoc(v as u32)
    }
}

impl FatEntry {
    /// The status of this entry, by its 28 significant bits.
    pub open spec fn spec_status(&self) -> Status {
        status_of(significant(self.0))
    }

    /// Returns the `Status` of the FAT entry `self`.
    pub fn status(&self) -> (s: Status)
        ensures
            s == self.spec_status(),
            s matches Status::Data(next) ==> 2 <= next.0 <= 0x0FFF_FFF5,
            s matches Status::Eoc(marker) ==> 0x0FFF_FFF8 <= marker <= 0x0FFF_FFFF,
    {
        let raw: u32 = self.0;
        let v: u32 = raw & 0x0FFF_FFFF;
        assert(v == raw % 0x1000_0000) by (bit_vector)
            requires
                v == raw & 0x0FFF_FFFF,
        ;
        if v == 0 {
            Status::Free
        } else if v == 1 || v == 0x0FFF_FFF6 {
            Status::Reserved
        } else if v <= 0x0FFF_FFF5 {
            Status::Data(Cluster::from(v))
        } else if v == 0x0FFF_FFF7 {
            Status::Bad
        } else {
            Status::Eoc(v)
        }
    }
}

} // verus!
