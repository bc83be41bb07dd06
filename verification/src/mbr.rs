//! The master boot record: the first sector of a disk, with its partition table.

use crate::traits::{whole_sector, BlockDevice, IoError};
use crate::util::{le_u16, le_u32, read_u16, read_u32};
use vstd::prelude::*;

verus! {

/// A cylinder/head/sector address, as a partition entry stores it.
#[derive(Copy, Clone, Debug, PartialEq, Eq, Structural)]
pub struct CHS {
    pub head: u8,
    pub sector_upper: u8,
    pub cylinder_lower: u8,
}

impl CHS {
    /// The sector number: the low six bits of the second byte.
    pub fn sector(self) -> (s: u8)
        ensures
            s == self.sector_upper & 0x3F,
            s < 64,
    {
        let upper: u8 = self.sector_upper;
        let s: u8 = upper & 0x3F;
        assert(s < 64) by (bit_vector)
            requires
                s == upper & 0x3F,
        ;
        s
    }

    /// The cylinder number: the top two bits of the second byte, joined
    /// with the third byte.
    pub fn cylinder(self) -> (c: u16)
        ensures
            c == ((self.sector_upper & 0xC0) as u16) | (self.cylinder_lower as u16),
    {
        let upper: u8 = self.sector_upper & 0xC0;
        (upper as u16) | (self.cylinder_lower as u16)
    }

    /// The address stored in the three bytes at `bytes[at..at + 3]`.
    pub open spec fn decode(bytes: Seq<u8>, at: int) -> CHS {
        CHS { head: bytes[at], sector_upper: bytes[at + 1], cylinder_lower: bytes[at + 2] }
    }
}

/// What a partition's boot indicator says.
#[derive(Clone, Copy, Debug, PartialEq, Eq, Structural)]
pub enum BootStatus {
    Inactive,
    Active,
    Unknown,
}

impl BootStatus {
    pub fn is_unknown(self) -> (b: bool)
        ensures
            b == (self is Unknown),
    {
        match self {
            BootStatus::Unknown => true,
            _ => false,
        }
    }

    pub fn is_active(self) -> (b: bool)
        ensures
            b == (self is Active),
    {
        match self {
            BootStatus::Active => true,
            _ => false,
        }
    }

    pub fn is_inactive(self) -> (b: bool)
        ensures
            b == (self is Inactive),
    {
        match self {
            BootStatus::Inactive => true,
            _ => false,
        }
    }
}

/// The boot indicator byte of a partition entry.
#[derive(Clone, Copy, Debug, PartialEq, Eq, Structural)]
pub struct BootFlag(pub u8);

impl BootFlag {
    /// `0x00` is inactive, `0x80` is active, every other value is unknown.
    pub open spec fn spec_status(self) -> BootStatus {
        if self.0 == 0x00 {
            BootStatus::Inactive
        } else if self.0 == 0x80 {
            BootStatus::Active
        } else {
            BootStatus::Unknown
        }
    }

    pub fn status(self) -> (s: BootStatus)
        ensures
            s == self.spec_status(),
    {
        match self.0 {
            0x00 => BootStatus::Inactive,
            0x80 => BootStatus::Active,
            _ => BootStatus::Unknown,
        }
    }

    pub fn value(self) -> (v: u8)
        ensures
            v == self.0,
    {
        self.0
    }
}

/// One of the four records of the partition table.
#[derive(Clone, Copy, Debug, PartialEq, Eq, Structural)]
pub struct PartitionEntry {
    pub boot_flag: BootFlag,
    pub chs_start: CHS,
    pub partition_type: u8,
    pub chs_end: CHS,
    pub sector_lba: u32,
    pub sector_total: u32,
}

impl PartitionEntry {
    /// The entry stored in the 16 bytes at `bytes[at..at + 16]`.
    pub open spec fn decode(bytes: Seq<u8>, at: int) -> PartitionEntry {
        PartitionEntry {
            boot_flag: BootFlag(bytes[at]),
            chs_start: CHS::decode(bytes, at + 1),
            partition_type: bytes[at + 4],
            chs_end: CHS::decode(bytes, at + 5),
            sector_lba: le_u32(bytes, at + 8),
            sector_total: le_u32(bytes, at + 12),
        }
    }

    /// Partition types `0x0B` and `0x0C` are FAT32.
    pub open spec fn spec_is_fat(&self) -> bool {
        self.partition_type == 0x0B || self.partition_type == 0x0C
    }

    /// The first sector of the partition, if the partition is FAT32.
    pub open spec fn spec_fat_begin_lba(&self) -> Option<u32> {
        if self.spec_is_fat() {
            Some(self.sector_lba)
        } else {
            None
        }
    }

    pub fn is_fat(&self) -> (b: bool)
        ensures
            b == self.spec_is_fat(),
    {
        match self.partition_type {
            0xB | 0xC => true,
            _ => false,
        }
    }

    pub fn fat_begin_lba(&self) -> (lba: Option<u32>)
        ensures
            lba == self.spec_fat_begin_lba(),
    {
        if self.is_fat() {
            return Some(self.sector_lba);
        }
        None
    }

    /// Decodes the entry at `sector[at..at + 16]`.
    fn parse(sector: &[u8; 512], at: usize) -> (e: PartitionEntry)
        requires
            at + 16 <= 512,
        ensures
            e == PartitionEntry::decode(sector@, at as int),
    {
        PartitionEntry {
            boot_flag: BootFlag(sector[at]),
            chs_start: CHS {
                head: sector[at + 1],
                sector_upper: sector[at + 2],
                cylinder_lower: sector[at + 3],
            },
            partition_type: sector[at + 4],
            chs_end: CHS {
                head: sector[at + 5],
                sector_upper: sector[at + 6],
                cylinder_lower: sector[at + 7],
            },
            sector_lba: read_u32(sector.as_slice(), at + 8),
            sector_total: read_u32(sector.as_slice(), at + 12),
        }
    }
}

/// Why a boot record could not be read.
#[derive(Clone, Copy, Debug, PartialEq, Eq, Structural)]
pub enum Error {
    /// The device failed, or handed back less than a whole sector.
    Io(IoError),
    /// The partition with this index has an invalid or unknown boot indicator.
    UnknownBootIndicator(u8),
    /// The magic signature is not `0xAA55`.
    BadSignature,
}

impl Error {
    /// Wraps a device failure.
    pub fn from(e: IoError) -> (r: Error)
        ensures
            r == Error::Io(e),
    {
        Error::Io(e)
    }
}

/// The master boot record (MBR), without its bootstrap code.
#[derive(Clone, Copy, Debug)]
pub struct MasterBootRecord {
    pub disk_id: [u8; 10],
    pub entries: [PartitionEntry; 4],
    pub boot_sig: u16,
}

/// The magic signature that ends a boot sector.
pub const VALID_BOOTSECTOR: u16 = 0xAA55;

/// Byte offset of the partition table in the boot record.
pub const TABLE_OFFSET: usize = 446;

/// Byte offset of the magic signature in a boot sector.
pub const SIGNATURE_OFFSET: usize = 510;

/// Whether the sector ends in the bytes `0x55 0xAA`.
pub open spec fn signed(sector: Seq<u8>) -> bool {
    le_u16(sector, 510) == 0xAA55
}

/// Whether the boot indicator of entry `i` of the sector's partition table
/// is neither `0x00` nor `0x80`.
pub open spec fn unknown_indicator(sector: Seq<u8>, i: int) -> bool {
    BootFlag(sector[446 + 16 * i]).spec_status() is Unknown
}

/// The index of the first partition entry with an unknown boot indicator.
pub open spec fn first_unknown_indicator(sector: Seq<u8>) -> Option<u8> {
    if unknown_indicator(sector, 0) {
        Some(0u8)
    } else if unknown_indicator(sector, 1) {
        Some(1u8)
    } else if unknown_indicator(sector, 2) {
        Some(2u8)
    } else if unknown_indicator(sector, 3) {
        Some(3u8)
    } else {
        None
    }
}

/// The starting sectors of the FAT32 partitions among `entries[from..]`.
pub open spec fn fat_starts(entries: Seq<PartitionEntry>, from: int) -> Seq<u32>
    decreases entries.len() - from,
{
    if from < 0 || from >= entries.len() {
        Seq::empty()
    } else if entries[from].spec_is_fat() {
        seq![entries[from].sector_lba] + fat_starts(entries, from + 1)
    } else {
        fat_starts(entries, from + 1)
    }
}

impl MasterBootRecord {
    /// Whether this record holds what the 512 bytes of `sector` encode.
    pub open spec fn decodes(&self, sector: Seq<u8>) -> bool {
        &&& self.disk_id@ == sector.subrange(436, 446)
        &&& forall|i: int|
            0 <= i < 4 ==> #[trigger] self.entries@[i] == PartitionEntry::decode(
                sector,
                446 + 16 * i,
            )
        &&& self.boot_sig == le_u16(sector, 510)
    }

    /// What parsing `sector` gives: a bad signature is reported before an
    /// unknown boot indicator, and of those the first one is reported.
    pub open spec fn parsed(sector: Seq<u8>, r: Result<MasterBootRecord, Error>) -> bool {
        if !signed(sector) {
            r == Err::<MasterBootRecord, Error>(Error::BadSignature)
        } else {
            match first_unknown_indicator(sector) {
                Some(i) => r == Err::<MasterBootRecord, Error>(Error::UnknownBootIndicator(i)),
                None => r is Ok && r->Ok_0.decodes(sector),
            }
        }
    }

    /// Whether the record carries the magic signature and every boot
    /// indicator in it is known, as in every record that was parsed.
    pub open spec fn valid(&self) -> bool {
        &&& self.boot_sig == 0xAA55
        &&& forall|i: int|
            0 <= i < 4 ==> !(#[trigger] self.entries@[i].boot_flag.spec_status() is Unknown)
    }

    /// The starting sector of the first FAT32 partition in table order.
    pub open spec fn spec_first_fat_partition(&self) -> Option<u32> {
        if self.entries@[0].spec_is_fat() {
            Some(self.entries@[0].sector_lba)
        } else if self.entries@[1].spec_is_fat() {
            Some(self.entries@[1].sector_lba)
        } else if self.entries@[2].spec_is_fat() {
            Some(self.entries@[2].sector_lba)
        } else if self.entries@[3].spec_is_fat() {
            Some(self.entries@[3].sector_lba)
        } else {
            None
        }
    }

    pub fn has_mbr(&self) -> (b: bool)
        ensures
            b == (self.boot_sig == 0xAA55),
    {
        self.boot_sig == VALID_BOOTSECTOR
    }

    /// Scans the table in order; the first FAT32 partition wins.
    pub fn first_fat_partition(&self) -> (lba: Option<u32>)
        ensures
            lba == self.spec_first_fat_partition(),
    {
        let mut i: usize = 0;
        while i < 4
            invariant
                i <= 4,
                forall|j: int| 0 <= j < i ==> !(#[trigger] self.entries@[j]).spec_is_fat(),
            decreases 4 - i,
        {
            if let Some(lba_start) = self.entries[i].fat_begin_lba() {
                return Some(lba_start);
            }
            i += 1;
        }
        None
    }

    /// The starting sectors of all FAT32 partitions, in table order.
    pub fn fat_partition_start(&self) -> (starts: Vec<u32>)
        ensures
            starts@ == fat_starts(self.entries@, 0),
    {
        let mut starts: Vec<u32> = Vec::new();
        let mut i: usize = 4;
        while i > 0
            invariant
                i <= 4,
                self.entries@.len() == 4,
                starts@ == fat_starts(self.entries@, i as int),
            decreases i,
        {
            i -= 1;
            if let Some(lba_start) = self.entries[i].fat_begin_lba() {
                starts.insert(0, lba_start);
                assert(starts@ == seq![lba_start] + fat_starts(self.entries@, i + 1));
            }
        }
        starts
    }

    /// Decodes a boot record from the 512 bytes of its sector.
    pub fn parse(sector: &[u8; 512]) -> (r: Result<MasterBootRecord, Error>)
        ensures
            MasterBootRecord::parsed(sector@, r),
            r matches Ok(mbr) ==> mbr.valid(),
    {
        let bytes = sector.as_slice();
        let boot_sig = read_u16(bytes, SIGNATURE_OFFSET);
        if boot_sig != VALID_BOOTSECTOR {
            return Err(Error::BadSignature);
        }
        let entries = [
            PartitionEntry::parse(sector, TABLE_OFFSET),
            PartitionEntry::parse(sector, TABLE_OFFSET + 16),
            PartitionEntry::parse(sector, TABLE_OFFSET + 32),
            PartitionEntry::parse(sector, TABLE_OFFSET + 48),
        ];
        let mut i: usize = 0;
        while i < 4
            invariant
                i <= 4,
                entries@.len() == 4,
                signed(sector@),
                forall|j: int|
                    0 <= j < 4 ==> #[trigger] entries@[j] == PartitionEntry::decode(
                        sector@,
                        446 + 16 * j,
                    ),
                forall|j: int| 0 <= j < i ==> !unknown_indicator(sector@, j),
            decreases 4 - i,
        {
            assert(entries@[i as int].boot_flag == BootFlag(sector@[446 + 16 * i]));
            if entries[i].boot_flag.status().is_unknown() {
                return Err(Error::UnknownBootIndicator(i as u8));
            }
            i += 1;
        }
        let disk_id = [
            sector[436],
            sector[437],
            sector[438],
            sector[439],
            sector[440],
            sector[441],
            sector[442],
            sector[443],
            sector[444],
            sector[445],
        ];
        assert(disk_id@ =~= sector@.subrange(436, 446));
        Ok(MasterBootRecord { disk_id, entries, boot_sig })
    }

    /// What reading a boot record comes to when the device answered `read`
    /// to a read of 512 bytes and left `sector` in the buffer: a fault is
    /// handed on as `Io`, a count short of 512 is `Io(UnexpectedEof)`, and
    /// a whole sector is parsed.
    pub open spec fn read_as(
        read: Result<usize, IoError>,
        sector: Seq<u8>,
        r: Result<MasterBootRecord, Error>,
    ) -> bool {
        match whole_sector(512, read) {
            Err(e) => r == Err::<MasterBootRecord, Error>(Error::Io(e)),
            Ok(_) => MasterBootRecord::parsed(sector, r),
        }
    }

    /// Makes a boot record of what a device answered to the read of its
    /// sector: `read` is the answer and `sector` the buffer after it.
    ///
    /// A fault is handed on as `Io`, and a read of fewer than 512 bytes
    /// gives `Io(UnexpectedEof)`. Otherwise the result is what `parse`
    /// gives for `sector`.
    pub fn from_read(read: Result<usize, IoError>, sector: &[u8; 512]) -> (r: Result<
        MasterBootRecord,
        Error,
    >)
        ensures
            MasterBootRecord::read_as(read, sector@, r),
            r matches Ok(mbr) ==> mbr.valid(),
    {
        match read {
            Err(e) => Err(Error::from(e)),
            Ok(size) => if size != 512 {
                Err(Error::from(IoError::UnexpectedEof))
            } else {
                MasterBootRecord::parse(sector)
            },
        }
    }

    /// Reads and returns the master boot record from sector 0 of `device`.
    ///
    /// The device decides what is read; the result is what `from_read`
    /// makes of its answer.
    pub fn from<T: BlockDevice>(mut device: T) -> (r: Result<MasterBootRecord, Error>)
        ensures
            exists|read: Result<usize, IoError>, sector: Seq<u8>|
                sector.len() == 512 && #[trigger] MasterBootRecord::read_as(read, sector, r),
            r matches Ok(mbr) ==> mbr.valid(),
    {
        let mut buf = [0u8; 512];
        let read = device.read_sector(0, &mut buf);
        let r = MasterBootRecord::from_read(read, &buf);
        assert(MasterBootRecord::read_as(read, buf@, r));
        r
    }
}

/// The last two bytes of the sector decide: with `0x55 0xAA` there and
/// every boot indicator `0x00` or `0x80`, parsing succeeds; with any other
/// pair there, it fails with `BadSignature`, whatever else the sector holds.
pub proof fn lemma_signature_decides(sector: Seq<u8>, r: Result<MasterBootRecord, Error>)
    requires
        sector.len() == 512,
        MasterBootRecord::parsed(sector, r),
    ensures
        signed(sector) <==> sector[510] == 0x55 && sector[511] == 0xAA,
        !signed(sector) <==> r == Err::<MasterBootRecord, Error>(Error::BadSignature),
        signed(sector) && (forall|i: int| 0 <= i < 4 ==> !#[trigger] unknown_indicator(sector, i))
            ==> r is Ok,
{
}

} // verus!
