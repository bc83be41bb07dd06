//! Cluster numbers.

use vstd::prelude::*;

verus! {

/// A cluster number: the low 28 bits of a 32-bit FAT32 entry.
#[derive(PartialEq, Eq, Structural, PartialOrd, Ord, Debug, Copy, Clone, Hash)]
pub struct Cluster(pub u32);

/// The 28 significant bits of a raw cluster number.
pub open spec fn cluster_bits(raw: u32) -> u32 {
    (raw % 0x1000_0000) as u32
}

impl Cluster {
    /// Whether the four reserved top bits are off, as in every cluster that
    /// `from` builds.
    pub open spec fn wf(self) -> bool {
        self.0 < 0x1000_0000
    }

    /// Builds a cluster from a raw number, dropping the four reserved top bits.
    pub fn from(raw_num: u32) -> (c: Cluster)
        ensures
            c.0 == cluster_bits(raw_num),
            c.wf(),
    {
        let masked: u32 = raw_num & !(0xFu32 << 28);
        assert(masked == raw_num % 0x1000_0000) by (bit_vector)
            requires
                masked == raw_num & !(0xFu32 << 28),
        ;
        Cluster(masked)
    }

    /// Position of this cluster in the data region; clusters 0 and 1 are reserved.
    pub fn index(self) -> (i: u32)
        requires
            self.0 >= 2,
        ensures
            i == self.0 - 2,
    {
        self.0 - 2
    }

    /// Whether this cluster can hold data.
    pub fn is_valid(self) -> (b: bool)
        ensures
            b == (self.0 >= 2),
    {
        self.0 >= 2
    }

    /// The cluster number itself.
    pub fn clus_num(self) -> (n: u32)
        ensures
            n == self.0,
    {
        self.0
    }
}

} // verus!
