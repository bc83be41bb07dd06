//! The BIOS parameter block: the first sector of a FAT32 partition, which
//! describes the volume's geometry.

use crate::mbr::Error;
use crate::traits::{whole_sector, BlockDevice, IoError};
use crate::util::{le_u16, le_u32, read_u16, read_u32};
use vstd::prelude::*;

verus! {

/// The FAT32 extended BIOS parameter block, without its reserved bytes and
/// its boot code.
#[derive(Clone, Copy, Debug)]
pub struct BiosParameterBlock {
    pub oem_ident: [u8; 8],
    pub bytes_per_sec: u16,
    pub sec_per_clus: u8,
    pub rsvd_sec_count: u16,
    pub num_fats: u8,
    pub num_dir_entries: u16,
    pub num_logical_sec_bpb: u16,
    pub fat_id: u8,
    pub num_sec_per_fat: u16,
    pub sec_per_track: u16,
    pub heads_num: u16,
    pub num_hidden_sec: u32,
    pub num_logical_sec_epbp: u32,
    pub sec_per_fat_size: u32,
    pub flags: u16,
    pub vfat_version: u16,
    pub clus_num_root: u32,
    pub sec_num_fsinfo: u16,
    pub sec_num_backup_boot: u16,
    pub drive_num: u8,
    pub nt_flags: u8,
    pub signature: u8,
    pub vol_id: u32,
    pub vol_label: [u8; 11],
    pub sys_ident: [u8; 8],
    pub boot_sig: u16,
}

/// The magic signature that ends the parameter block.
pub const VALID_SIG: u16 = 0xAA55;

impl BiosParameterBlock {
    /// Whether this block holds what the 512 bytes of `sector` encode, each
    /// field little-endian at its fixed offset.
    pub open spec fn decodes(&self, sector: Seq<u8>) -> bool {
        &&& self.oem_ident@ == sector.subrange(3, 11)
        &&& self.bytes_per_sec == le_u16(sector, 11)
        &&& self.sec_per_clus == sector[13]
        &&& self.rsvd_sec_count == le_u16(sector, 14)
        &&& self.num_fats == sector[16]
        &&& self.num_dir_entries == le_u16(sector, 17)
        &&& self.num_logical_sec_bpb == le_u16(sector, 19)
        &&& self.fat_id == sector[21]
        &&& self.num_sec_per_fat == le_u16(sector, 22)
        &&& self.sec_per_track == le_u16(sector, 24)
        &&& self.heads_num == le_u16(sector, 26)
        &&& self.num_hidden_sec == le_u32(sector, 28)
        &&& self.num_logical_sec_epbp == le_u32(sector, 32)
        &&& self.sec_per_fat_size == le_u32(sector, 36)
        &&& self.flags == le_u16(sector, 40)
        &&& self.vfat_version == le_u16(sector, 42)
        &&& self.clus_num_root == le_u32(sector, 44)
        &&& self.sec_num_fsinfo == le_u16(sector, 48)
        &&& self.sec_num_backup_boot == le_u16(sector, 50)
        &&& self.drive_num == sector[64]
        &&& self.nt_flags == sector[65]
        &&& self.signature == sector[66]
        &&& self.vol_id == le_u32(sector, 67)
        &&& self.vol_label@ == sector.subrange(71, 82)
        &&& self.sys_ident@ == sector.subrange(82, 90)
        &&& self.boot_sig == le_u16(sector, 510)
    }

    /// What parsing `sector` gives: `BadSignature` exactly when the sector
    /// does not end in `0x55 0xAA`, and the decoded block otherwise.
    pub open spec fn parsed(sector: Seq<u8>, r: Result<BiosParameterBlock, Error>) -> bool {
        if le_u16(sector, 510) != 0xAA55 {
            r == Err::<BiosParameterBlock, Error>(Error::BadSignature)
        } else {
            r is Ok && r->Ok_0.decodes(sector)
        }
    }

    /// The first sector of the file allocation tables, counted from the
    /// start of the partition.
    pub open spec fn spec_fat_start(&self) -> u64 {
        self.rsvd_sec_count as u64
    }

    /// The first sector of the data region, counted from the start of the
    /// partition: the tables follow the reserved sectors, the data follows
    /// the tables.
    pub open spec fn spec_data_start_sec(&self) -> int {
        self.rsvd_sec_count as int + (self.num_fats as int) * (self.sec_per_fat_size as int)
    }

    /// The number of sectors of the volume: the 16-bit count unless it is
    /// zero, in which case the 32-bit count holds it.
    pub open spec fn spec_logical_sec(&self) -> u32 {
        if self.num_logical_sec_bpb == 0 {
            self.num_logical_sec_epbp
        } else {
            self.num_logical_sec_bpb as u32
        }
    }

    pub fn valid(&self) -> (b: bool)
        ensures
            b == (self.boot_sig == 0xAA55),
    {
        self.boot_sig == VALID_SIG
    }

    pub fn bytes_per_sec(&self) -> (n: u16)
        ensures
            n == self.bytes_per_sec,
    {
        self.bytes_per_sec
    }

    pub fn sec_per_clus(&self) -> (n: u8)
        ensures
            n == self.sec_per_clus,
    {
        self.sec_per_clus
    }

    pub fn fat_start(&self) -> (sector: u64)
        ensures
            sector == self.spec_fat_start(),
    {
        self.rsvd_sec_count as u64
    }

    pub fn num_fats(&self) -> (n: u8)
        ensures
            n == self.num_fats,
    {
        self.num_fats
    }

    pub fn sec_per_fat(&self) -> (n: u32)
        ensures
            n == self.sec_per_fat_size,
    {
        self.sec_per_fat_size
    }

    pub fn root_clus(&self) -> (n: u32)
        ensures
            n == self.clus_num_root,
    {
        self.clus_num_root
    }

    pub fn data_start_sec(&self) -> (sector: u64)
        ensures
            sector == self.spec_data_start_sec(),
    {
        let fats: u64 = self.num_fats() as u64;
        let per_fat: u64 = self.sec_per_fat() as u64;
        assert(fats * per_fat <= 255 * 0xFFFF_FFFF) by (nonlinear_arith)
            requires
                fats <= 255,
                per_fat <= 0xFFFF_FFFF,
        ;
        self.fat_start() + fats * per_fat
    }

    pub fn logical_sec(&self) -> (n: u32)
        ensures
            n == self.spec_logical_sec(),
    {
        if self.num_logical_sec_bpb == 0 {
            self.num_logical_sec_epbp
        } else {
            self.num_logical_sec_bpb as u32
        }
    }

    /// Decodes a parameter block from the 512 bytes of its sector.
    pub fn parse(sector: &[u8; 512]) -> (r: Result<BiosParameterBlock, Error>)
        ensures
            BiosParameterBlock::parsed(sector@, r),
    {
        let bytes = sector.as_slice();
        let boot_sig = read_u16(bytes, 510);
        if boot_sig != VALID_SIG {
            return Err(Error::BadSignature);
        }
        let oem_ident = [
            sector[3],
            sector[4],
            sector[5],
            sector[6],
            sector[7],
            sector[8],
            sector[9],
            sector[10],
        ];
        let vol_label = [
            sector[71],
            sector[72],
            sector[73],
            sector[74],
            sector[75],
            sector[76],
            sector[77],
            sector[78],
            sector[79],
            sector[80],
            sector[81],
        ];
        let sys_ident = [
            sector[82],
            sector[83],
            sector[84],
            sector[85],
            sector[86],
            sector[87],
            sector[88],
            sector[89],
        ];
        assert(oem_ident@ =~= sector@.subrange(3, 11));
        assert(vol_label@ =~= sector@.subrange(71, 82));
        assert(sys_ident@ =~= sector@.subrange(82, 90));
        Ok(
            BiosParameterBlock {
                oem_ident,
                bytes_per_sec: read_u16(bytes, 11),
                sec_per_clus: sector[13],
                rsvd_sec_count: read_u16(bytes, 14),
                num_fats: sector[16],
                num_dir_entries: read_u16(bytes, 17),
                num_logical_sec_bpb: read_u16(bytes, 19),
                fat_id: sector[21],
                num_sec_per_fat: read_u16(bytes, 22),
                sec_per_track: read_u16(bytes, 24),
                heads_num: read_u16(bytes, 26),
                num_hidden_sec: read_u32(bytes, 28),
                num_logical_sec_epbp: read_u32(bytes, 32),
                sec_per_fat_size: read_u32(bytes, 36),
                flags: read_u16(bytes, 40),
                vfat_version: read_u16(bytes, 42),
                clus_num_root: read_u32(bytes, 44),
                sec_num_fsinfo: read_u16(bytes, 48),
                sec_num_backup_boot: read_u16(bytes, 50),
                drive_num: sector[64],
                nt_flags: sector[65],
                signature: sector[66],
                vol_id: read_u32(bytes, 67),
                vol_label,
                sys_ident,
                boot_sig,
            },
        )
    }

    /// What reading a parameter block comes to when the device answered
    /// `read` to a read of 512 bytes and left `sector` in the buffer: a
    /// fault is handed on as `Io`, a count short of 512 is
    /// `Io(UnexpectedEof)`, and a whole sector is parsed.
    pub open spec fn read_as(
        read: Result<usize, IoError>,
        sector: Seq<u8>,
        r: Result<BiosParameterBlock, Error>,
    ) -> bool {
        match whole_sector(512, read) {
            Err(e) => r == Err::<BiosParameterBlock, Error>(Error::Io(e)),
            Ok(_) => BiosParameterBlock::parsed(sector, r),
        }
    }

    /// Makes a parameter block of what a device answered to the read of
    /// its sector: `read` is the answer and `sector` the buffer after it.
    ///
    /// A fault is handed on as `Io`, and a read of fewer than 512 bytes
    /// gives `Io(UnexpectedEof)`. Otherwise the result is what `parse`
    /// gives for `sector`.
    pub fn from_read(read: Result<usize, IoError>, sector: &[u8; 512]) -> (r: Result<
        BiosParameterBlock,
        Error,
    >)
        ensures
            BiosParameterBlock::read_as(read, sector@, r),
            r matches Ok(bpb) ==> bpb.boot_sig == 0xAA55,
    {
        match read {
            Err(e) => Err(Error::from(e)),
            Ok(size) => if size != 512 {
                Err(Error::from(IoError::UnexpectedEof))
            } else {
                BiosParameterBlock::parse(sector)
            },
        }
    }

    /// Reads the FAT32 extended BIOS parameter block from sector `sector`
    /// of `device`.
    ///
    /// The device decides what is read; the result is what `from_read`
    /// makes of its answer.
    pub fn from<T: BlockDevice>(mut device: T, sector: u64) -> (r: Result<
        BiosParameterBlock,
        Error,
    >)
        ensures
            exists|read: Result<usize, IoError>, bytes: Seq<u8>|
                bytes.len() == 512 && #[trigger] BiosParameterBlock::read_as(read, bytes, r),
            r matches Ok(bpb) ==> bpb.boot_sig == 0xAA55,
    {
        let mut buf = [0u8; 512];
        let read = device.read_sector(sector, &mut buf);
        let r = BiosParameterBlock::from_read(read, &buf);
        assert(BiosParameterBlock::read_as(read, buf@, r));
        r
    }
}

} // verus!
