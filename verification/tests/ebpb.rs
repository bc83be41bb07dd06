use fat32::ebpb::BiosParameterBlock;
use fat32::mbr::Error;
use fat32::traits::{BlockDevice, IoError};

/// A device of 512-byte sectors held in memory.
struct Ram(Vec<u8>);

impl BlockDevice for Ram {
    fn sector_size(&self) -> u64 {
        512
    }

    fn read_sector(&mut self, n: u64, buf: &mut [u8]) -> Result<usize, IoError> {
        let from = (n as usize) * 512;
        let count = std::cmp::min(512, buf.len());
        if from + count > self.0.len() {
            return Err(IoError::UnexpectedEof);
        }
        buf[..count].copy_from_slice(&self.0[from..from + count]);
        Ok(count)
    }

    fn write_sector(&mut self, _n: u64, _buf: &[u8]) -> Result<usize, IoError> {
        Err(IoError::ReadOnlyFilesystem)
    }
}

fn block() -> [u8; 512] {
    let mut b = [0u8; 512];
    b[3..11].copy_from_slice(b"MSWIN4.1");
    b[11..13].copy_from_slice(&512u16.to_le_bytes());
    b[13] = 8;
    b[14..16].copy_from_slice(&32u16.to_le_bytes());
    b[16] = 2;
    b[19..21].copy_from_slice(&0u16.to_le_bytes());
    b[21] = 0xF8;
    b[32..36].copy_from_slice(&0x0010_0000u32.to_le_bytes());
    b[36..40].copy_from_slice(&1000u32.to_le_bytes());
    b[44..48].copy_from_slice(&2u32.to_le_bytes());
    b[48..50].copy_from_slice(&1u16.to_le_bytes());
    b[50..52].copy_from_slice(&6u16.to_le_bytes());
    b[64] = 0x80;
    b[66] = 0x29;
    b[67..71].copy_from_slice(&0x1234_5678u32.to_le_bytes());
    b[71..82].copy_from_slice(b"NO NAME    ");
    b[82..90].copy_from_slice(b"FAT32   ");
    b[510] = 0x55;
    b[511] = 0xAA;
    b
}

#[test]
fn test_bpb_fields_are_decoded() {
    let bpb = BiosParameterBlock::parse(&block()).unwrap();
    assert!(bpb.valid());
    assert_eq!(bpb.bytes_per_sec(), 512);
    assert_eq!(bpb.sec_per_clus(), 8);
    assert_eq!(bpb.fat_start(), 32);
    assert_eq!(bpb.num_fats(), 2);
    assert_eq!(bpb.sec_per_fat(), 1000);
    assert_eq!(bpb.root_clus(), 2);
    assert_eq!(bpb.data_start_sec(), 32 + 2 * 1000);
    assert_eq!(&bpb.oem_ident, b"MSWIN4.1");
    assert_eq!(&bpb.vol_label, b"NO NAME    ");
    assert_eq!(&bpb.sys_ident, b"FAT32   ");
    assert_eq!(bpb.fat_id, 0xF8);
    assert_eq!(bpb.vol_id, 0x1234_5678);
    assert_eq!(bpb.sec_num_fsinfo, 1);
    assert_eq!(bpb.sec_num_backup_boot, 6);
    assert_eq!(bpb.drive_num, 0x80);
    assert_eq!(bpb.signature, 0x29);
}

#[test]
fn test_bpb_logical_sec_falls_back_to_wide_count() {
    let bpb = BiosParameterBlock::parse(&block()).unwrap();
    assert_eq!(bpb.logical_sec(), 0x0010_0000);
    let mut small = block();
    small[19..21].copy_from_slice(&40000u16.to_le_bytes());
    let bpb = BiosParameterBlock::parse(&small).unwrap();
    assert_eq!(bpb.logical_sec(), 40000);
}

#[test]
fn test_bpb_data_start_does_not_overflow() {
    let mut b = block();
    b[14..16].copy_from_slice(&0xFFFFu16.to_le_bytes());
    b[16] = 0xFF;
    b[36..40].copy_from_slice(&0xFFFF_FFFFu32.to_le_bytes());
    let bpb = BiosParameterBlock::parse(&b).unwrap();
    assert_eq!(bpb.data_start_sec(), 0xFFFF + 0xFF * 0xFFFF_FFFFu64);
}

#[test]
fn test_bpb_bad_signature() {
    let mut b = block();
    b[511] = 0xAB;
    assert_eq!(BiosParameterBlock::parse(&b).err(), Some(Error::BadSignature));
    let mut disk = vec![0u8; 1024];
    disk[512..].copy_from_slice(&b);
    match BiosParameterBlock::from(Ram(disk), 1) {
        Err(Error::BadSignature) => assert!(true),
        _ => assert!(false),
    }
}

#[test]
fn test_bpb_from_reads_the_given_sector() {
    let mut disk = vec![0u8; 2048];
    disk[1536..].copy_from_slice(&block());
    let bpb = BiosParameterBlock::from(Ram(disk.clone()), 3).unwrap();
    assert_eq!(bpb.sec_per_fat(), 1000);
    match BiosParameterBlock::from(Ram(disk.clone()), 0) {
        Err(Error::BadSignature) => assert!(true),
        _ => assert!(false),
    }
    match BiosParameterBlock::from(Ram(disk), 4) {
        Err(Error::Io(IoError::UnexpectedEof)) => assert!(true),
        _ => assert!(false),
    }
}

#[test]
fn test_bpb_from_read_parses_a_whole_sector() {
    let bpb = BiosParameterBlock::from_read(Ok(512), &block()).unwrap();
    assert_eq!(bpb.sec_per_fat(), 1000);
    let mut unsigned = block();
    unsigned[510] = 0;
    assert_eq!(BiosParameterBlock::from_read(Ok(512), &unsigned).err(), Some(Error::BadSignature));
}

#[test]
fn test_bpb_from_read_refuses_a_short_read() {
    let eof = Some(Error::Io(IoError::UnexpectedEof));
    assert_eq!(BiosParameterBlock::from_read(Ok(511), &block()).err(), eof);
    assert_eq!(BiosParameterBlock::from_read(Ok(0), &block()).err(), eof);
    assert_eq!(BiosParameterBlock::from_read(Ok(1024), &block()).err(), eof);
}

#[test]
fn test_bpb_from_read_hands_a_fault_on() {
    assert_eq!(
        BiosParameterBlock::from_read(Err(IoError::NotFound), &block()).err(),
        Some(Error::Io(IoError::NotFound))
    );
    assert_eq!(
        BiosParameterBlock::from_read(Err(IoError::Other), &[0u8; 512]).err(),
        Some(Error::Io(IoError::Other))
    );
}
