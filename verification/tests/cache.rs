use fat32::cache::{copy_prefix, CacheEntry, CachedDevice, Partition};
use fat32::traits::{append_sector, BlockDevice, IoError};
use std::cell::RefCell;
use std::io::{Cursor, Read, Seek, SeekFrom, Write};
use std::rc::Rc;

/// A block device over anything that can be read, written and sought.
struct Disk<T: Read + Write + Seek>(T);

impl<T: Read + Write + Seek> BlockDevice for Disk<T> {
    fn sector_size(&self) -> u64 {
        512
    }

    fn read_sector(&mut self, n: u64, buf: &mut [u8]) -> Result<usize, IoError> {
        let sector_size = self.sector_size();
        let to_read = std::cmp::min(sector_size as usize, buf.len());
        self.0.seek(SeekFrom::Start(n * sector_size)).map_err(|_| IoError::Other)?;
        self.0.read_exact(&mut buf[..to_read]).map_err(|_| IoError::UnexpectedEof)?;
        Ok(to_read)
    }

    fn write_sector(&mut self, n: u64, buf: &[u8]) -> Result<usize, IoError> {
        let sector_size = self.sector_size();
        let to_write = std::cmp::min(sector_size as usize, buf.len());
        self.0.seek(SeekFrom::Start(n * sector_size)).map_err(|_| IoError::Other)?;
        self.0.write_all(&buf[..to_write]).map_err(|_| IoError::Other)?;
        Ok(to_write)
    }
}

/// A device in memory that notes every sector it is asked to read.
#[derive(Debug)]
struct Counting {
    data: Vec<u8>,
    size: u64,
    reads: Rc<RefCell<Vec<u64>>>,
}

impl Counting {
    fn new(data: Vec<u8>, size: u64) -> (Counting, Rc<RefCell<Vec<u64>>>) {
        let reads = Rc::new(RefCell::new(Vec::new()));
        (Counting { data, size, reads: reads.clone() }, reads)
    }
}

impl BlockDevice for Counting {
    fn spec_sector_size(&self) -> u64 {
        self.size
    }

    fn sector_size(&self) -> u64 {
        self.size
    }

    fn read_sector(&mut self, n: u64, buf: &mut [u8]) -> Result<usize, IoError> {
        self.reads.borrow_mut().push(n);
        let size = self.size as usize;
        let from = (n as usize).checked_mul(size).ok_or(IoError::InvalidInput)?;
        let count = std::cmp::min(size, buf.len());
        if from + count > self.data.len() {
            return Err(IoError::UnexpectedEof);
        }
        buf[..count].copy_from_slice(&self.data[from..from + count]);
        Ok(count)
    }

    fn write_sector(&mut self, _n: u64, _buf: &[u8]) -> Result<usize, IoError> {
        Err(IoError::Other)
    }
}

fn numbered(sectors: usize, size: usize) -> Vec<u8> {
    let mut data = vec![0u8; sectors * size];
    for s in 0..sectors {
        for b in 0..size {
            data[s * size + b] = (s as u8).wrapping_mul(16).wrapping_add(b as u8);
        }
    }
    data
}

#[test]
fn test_cache_read() {
    let mut data = [0u8; 1024];
    // set some data
    data[0] = 255;
    data[512] = 1;
    let device = Disk(Cursor::new(&mut data[..]));
    let partition = Partition {
        start: 0,
        sector_size: 512,
    };
    let mut cache = CachedDevice::new(device, partition);
    let mut sector1 = [0u8; 512];
    assert_eq!(cache.read_sector(0, &mut sector1).unwrap(), 512);
    assert_eq!(sector1[0], 255);
    assert_eq!(cache.read_sector(1, &mut sector1).unwrap(), 512);
    assert_eq!(sector1[0], 1);
}

#[test]
fn test_cache_write() {
    let mut data = [0u8; 1024];
    // set some data
    data[0] = 255;
    let device = Disk(Cursor::new(&mut data[..]));
    let partition = Partition {
        start: 0,
        sector_size: 512,
    };
    let mut cache = CachedDevice::new(device, partition);
    let mut sector1 = [0u8; 512];
    sector1[0] = 1;
    assert_eq!(cache.write_sector(0, &sector1).unwrap(), 512);
    let mut read = [0u8; 512];
    assert_eq!(cache.read_sector(0, &mut read).unwrap(), 512);
    // should be 1 not 255
    assert_eq!(read[0], 1);
}

#[test]
fn test_cache_bounds() {
    let mut data = [0u8; 1024];
    let device = Disk(Cursor::new(&mut data[..]));
    let partition = Partition {
        start: 0,
        sector_size: 512,
    };
    let mut cache = CachedDevice::new(device, partition);
    let mut sector1 = [0u8; 512];
    cache
        .read_sector(3, &mut sector1)
        .expect_err("Out of bounds");
}

#[test]
fn test_cache_write_never_reaches_the_device() {
    let mut data = [0u8; 1024];
    data[0] = 255;
    {
        let device = Disk(Cursor::new(&mut data[..]));
        let mut cache = CachedDevice::new(device, Partition { start: 0, sector_size: 512 });
        let sector = [7u8; 512];
        assert_eq!(cache.write_sector(0, &sector).unwrap(), 512);
    }
    assert_eq!(data[0], 255);
}

#[test]
fn test_virtual_to_physical_same_size() {
    let (device, _) = Counting::new(vec![0u8; 512], 512);
    let cache = CachedDevice::new(device, Partition { start: 2048, sector_size: 512 });
    assert_eq!(cache.virtual_to_physical(2048), (2048, 1));
    assert_eq!(cache.virtual_to_physical(0), (0, 1));
    assert_eq!(cache.virtual_to_physical(5000), (5000, 1));
}

#[test]
fn test_virtual_to_physical_factor_eight() {
    let (device, _) = Counting::new(vec![0u8; 512], 512);
    let cache = CachedDevice::new(device, Partition { start: 2048, sector_size: 4096 });
    assert_eq!(cache.virtual_to_physical(2048), (2048, 8));
    assert_eq!(cache.virtual_to_physical(2049), (2056, 8));
    assert_eq!(cache.virtual_to_physical(2050), (2064, 8));
    assert_eq!(cache.virtual_to_physical(2047), (2047, 1));
    assert_eq!(cache.virtual_to_physical(0), (0, 1));
}

#[test]
fn test_is_addressable() {
    let (device, _) = Counting::new(vec![0u8; 512], 512);
    let cache = CachedDevice::new(device, Partition { start: 2048, sector_size: 4096 });
    assert!(cache.is_addressable(2049));
    assert!(cache.is_addressable(100));
    assert!(!cache.is_addressable(u64::MAX));
    assert!(!cache.is_addressable(u64::MAX / 8 + 2048));
    assert!(cache.is_addressable((u64::MAX - 2048 - 7) / 8 + 2048));
    let (device, _) = Counting::new(vec![0u8; 512], 512);
    let cache = CachedDevice::new(device, Partition { start: 2048, sector_size: 512 });
    assert!(cache.is_addressable(u64::MAX));
}

#[test]
fn test_get_of_unaddressable_sector_is_invalid_input() {
    let (device, reads) = Counting::new(vec![0u8; 1024], 512);
    let mut cache = CachedDevice::new(device, Partition { start: 1, sector_size: 1024 });
    assert_eq!(cache.get(u64::MAX).err(), Some(IoError::InvalidInput));
    assert_eq!(cache.get_mut(u64::MAX).err(), Some(IoError::InvalidInput));
    assert!(reads.borrow().is_empty());
}

#[test]
fn test_each_sector_is_read_once() {
    let (device, reads) = Counting::new(numbered(4, 512), 512);
    let mut cache = CachedDevice::new(device, Partition { start: 0, sector_size: 512 });
    assert!(!cache.is_cached(2));
    assert_eq!(cache.get(2).unwrap()[1], 33);
    assert!(cache.is_cached(2));
    assert_eq!(cache.get(2).unwrap()[1], 33);
    assert_eq!(cache.get_mut(2).unwrap()[1], 33);
    assert_eq!(cache.get(2).unwrap().len(), 512);
    let mut buf = [0u8; 512];
    assert_eq!(cache.read_sector(2, &mut buf).unwrap(), 512);
    assert_eq!(*reads.borrow(), vec![2]);
    assert_eq!(cache.get(0).unwrap()[3], 3);
    assert_eq!(cache.get(2).unwrap()[1], 33);
    assert_eq!(*reads.borrow(), vec![2, 0]);
}

#[test]
fn test_logical_sector_is_made_of_physical_ones() {
    let (device, reads) = Counting::new(numbered(8, 4), 4);
    let mut cache = CachedDevice::new(device, Partition { start: 2, sector_size: 12 });
    assert_eq!(cache.sector_size(), 12);
    // Before the partition a sector is a physical one.
    assert_eq!(cache.get(1).unwrap(), &[16, 17, 18, 19][..]);
    // Logical sector 3 is the second of the partition: physical 5, 6, 7.
    assert_eq!(
        cache.get(3).unwrap(),
        &[80, 81, 82, 83, 96, 97, 98, 99, 112, 113, 114, 115][..]
    );
    assert_eq!(*reads.borrow(), vec![1, 5, 6, 7]);
    assert_eq!(cache.get(3).unwrap().len(), 12);
    assert_eq!(*reads.borrow(), vec![1, 5, 6, 7]);
}

#[test]
fn test_failed_load_caches_nothing() {
    let (device, reads) = Counting::new(numbered(7, 4), 4);
    let mut cache = CachedDevice::new(device, Partition { start: 2, sector_size: 12 });
    // Logical sector 3 needs physical 5, 6, 7; the device ends after 6.
    assert_eq!(cache.get(3).err(), Some(IoError::UnexpectedEof));
    assert!(!cache.is_cached(3));
    assert_eq!(*reads.borrow(), vec![5, 6, 7]);
    assert_eq!(cache.load_cache(3).err(), Some(IoError::UnexpectedEof));
    assert_eq!(reads.borrow().len(), 6);
    assert_eq!(cache.load_cache(2), Ok(()));
    assert!(cache.is_cached(2));
}

#[test]
fn test_get_mut_changes_the_cached_bytes() {
    let (device, reads) = Counting::new(numbered(2, 512), 512);
    let mut cache = CachedDevice::new(device, Partition { start: 0, sector_size: 512 });
    {
        let data = cache.get_mut(1).unwrap();
        assert_eq!(data[0], 16);
        data[0] = 99;
    }
    assert_eq!(cache.get(1).unwrap()[0], 99);
    assert_eq!(*reads.borrow(), vec![1]);
}

#[test]
fn test_read_and_write_copy_what_both_hold() {
    let (device, _) = Counting::new(numbered(2, 512), 512);
    let mut cache = CachedDevice::new(device, Partition { start: 0, sector_size: 512 });
    let mut small = [0u8; 4];
    assert_eq!(cache.read_sector(1, &mut small).unwrap(), 4);
    assert_eq!(small, [16, 17, 18, 19]);
    let mut large = [0xEEu8; 600];
    assert_eq!(cache.read_sector(1, &mut large).unwrap(), 512);
    assert_eq!(large[511], 16u8.wrapping_add(255));
    assert_eq!(large[512], 0xEE);
    assert_eq!(cache.write_sector(1, &[1, 2, 3]).unwrap(), 3);
    assert_eq!(&cache.get(1).unwrap()[..5], &[1, 2, 3, 19, 20]);
    assert_eq!(cache.write_sector(1, &[9u8; 600]).unwrap(), 512);
    assert_eq!(cache.get(1).unwrap()[511], 9);
}

#[test]
fn test_fill_enters_a_sector_once() {
    let (device, reads) = Counting::new(numbered(2, 512), 512);
    let mut cache = CachedDevice::new(device, Partition { start: 0, sector_size: 512 });
    assert!(cache.fill(1, vec![7, 8, 9]));
    assert!(cache.is_cached(1));
    assert_eq!(cache.get(1).unwrap(), &[7, 8, 9][..]);
    assert!(!cache.fill(1, vec![1]));
    assert_eq!(cache.get(1).unwrap(), &[7, 8, 9][..]);
    assert_eq!(cache.get(0).unwrap()[1], 1);
    assert!(!cache.fill(0, vec![1]));
    assert_eq!(cache.get(0).unwrap().len(), 512);
    assert_eq!(*reads.borrow(), vec![0]);
}

#[test]
fn test_copy_prefix() {
    let mut dst = [0u8; 4];
    assert_eq!(copy_prefix(&mut dst, &[1, 2]), 2);
    assert_eq!(dst, [1, 2, 0, 0]);
    assert_eq!(copy_prefix(&mut dst, &[5, 6, 7, 8, 9]), 4);
    assert_eq!(dst, [5, 6, 7, 8]);
    assert_eq!(copy_prefix(&mut dst, &[]), 0);
    assert_eq!(dst, [5, 6, 7, 8]);
}

#[test]
fn test_cache_entry_new_is_clean() {
    let entry = CacheEntry::new(vec![1, 2, 3]);
    assert_eq!(entry.data, vec![1, 2, 3]);
    assert!(!entry.dirty);
}

#[test]
fn test_read_all_sector_appends_one_sector() {
    let (mut device, _) = Counting::new(numbered(2, 4), 4);
    let mut vec = vec![0xAA];
    assert_eq!(device.read_all_sector(1, &mut vec), Ok(4));
    assert_eq!(vec, vec![0xAA, 16, 17, 18, 19]);
    assert_eq!(device.read_all_sector(2, &mut vec), Err(IoError::UnexpectedEof));
    assert_eq!(vec, vec![0xAA, 16, 17, 18, 19]);
    let mut by_ref = &mut device;
    assert_eq!(by_ref.sector_size(), 4);
    assert_eq!(by_ref.read_all_sector(0, &mut vec), Ok(4));
    assert_eq!(vec.len(), 9);
}

#[test]
fn test_append_sector_takes_a_whole_sector() {
    let mut vec = vec![1, 2];
    assert_eq!(append_sector(&mut vec, vec![7, 8, 9, 10], Ok(4)), Ok(4));
    assert_eq!(vec, vec![1, 2, 7, 8, 9, 10]);
    assert_eq!(append_sector(&mut vec, Vec::new(), Ok(0)), Ok(0));
    assert_eq!(vec, vec![1, 2, 7, 8, 9, 10]);
}

#[test]
fn test_append_sector_refuses_a_short_read() {
    let mut vec = vec![1, 2];
    assert_eq!(append_sector(&mut vec, vec![7, 8, 9, 10], Ok(3)), Err(IoError::UnexpectedEof));
    assert_eq!(vec, vec![1, 2]);
    assert_eq!(append_sector(&mut vec, vec![7, 8, 9, 10], Ok(5)), Err(IoError::UnexpectedEof));
    assert_eq!(vec, vec![1, 2]);
}

#[test]
fn test_append_sector_hands_a_fault_on() {
    let mut vec = vec![1, 2];
    assert_eq!(append_sector(&mut vec, vec![7, 8, 9, 10], Err(IoError::Other)), Err(IoError::Other));
    assert_eq!(vec, vec![1, 2]);
    assert_eq!(
        append_sector(&mut vec, vec![7, 8, 9, 10], Err(IoError::InvalidInput)),
        Err(IoError::InvalidInput)
    );
    assert_eq!(vec, vec![1, 2]);
}

#[test]
fn test_read_all_sector_hands_a_fault_on() {
    let (mut device, reads) = Counting::new(numbered(2, 4), 4);
    let mut vec = vec![0xAA];
    assert_eq!(device.read_all_sector(u64::MAX, &mut vec), Err(IoError::InvalidInput));
    assert_eq!(vec, vec![0xAA]);
    assert_eq!(*reads.borrow(), vec![u64::MAX]);
}

#[test]
fn test_a_reference_to_a_device_hands_calls_on() {
    let mut data = [0u8; 1024];
    data[512] = 7;
    let mut device = Disk(Cursor::new(&mut data[..]));
    {
        let mut by_ref = &mut device;
        assert_eq!(by_ref.sector_size(), 512);
        let mut buf = [0u8; 512];
        assert_eq!(by_ref.read_sector(1, &mut buf), Ok(512));
        assert_eq!(buf[0], 7);
        let mut small = [0u8; 4];
        assert_eq!(by_ref.read_sector(1, &mut small), Ok(4));
        assert_eq!(small, [7, 0, 0, 0]);
        assert_eq!(by_ref.write_sector(0, &[9u8; 512]), Ok(512));
        assert_eq!(by_ref.write_sector(1, &[3, 4]), Ok(2));
        assert_eq!(by_ref.read_sector(2, &mut buf), Err(IoError::UnexpectedEof));
        let mut vec = Vec::new();
        assert_eq!(by_ref.read_all_sector(0, &mut vec), Ok(512));
        assert_eq!(vec, vec![9u8; 512]);
        assert_eq!(by_ref.read_all_sector(2, &mut vec), Err(IoError::UnexpectedEof));
        assert_eq!(vec.len(), 512);
    }
    let mut buf = [0u8; 512];
    assert_eq!(device.read_sector(1, &mut buf), Ok(512));
    assert_eq!(&buf[..3], &[3, 4, 0]);
}

#[test]
fn test_physical_sectors_follow_one_another() {
    let (device, _) = Counting::new(numbered(64, 64), 64);
    let cache = CachedDevice::new(device, Partition { start: 10, sector_size: 512 });
    assert_eq!(cache.virtual_to_physical(12), (26, 8));
    for i in 0..8 {
        assert_eq!(cache.physical_sector(12, i), 26 + i);
    }
    assert_eq!(cache.physical_sector(10, 0), 10);
    assert_eq!(cache.physical_sector(10, 7), 17);
    assert_eq!(cache.physical_sector(3, 0), 3);
}

#[test]
fn test_a_miss_reads_the_physical_sectors_in_order() {
    let (device, reads) = Counting::new(numbered(64, 4), 4);
    let mut cache = CachedDevice::new(device, Partition { start: 2, sector_size: 12 });
    let mut expected = Vec::new();
    expected.extend_from_slice(&numbered(64, 4)[5 * 4..8 * 4]);
    assert_eq!(cache.get(3).unwrap(), &expected[..]);
    assert_eq!(*reads.borrow(), vec![5, 6, 7]);
    assert!(cache.is_cached(3));
    assert!(!cache.is_cached(5));
}

#[test]
fn test_a_sector_is_clean_until_it_is_handed_out_for_writing() {
    let (device, _) = Counting::new(numbered(8, 4), 4);
    let mut cache = CachedDevice::new(device, Partition { start: 0, sector_size: 4 });
    assert!(!cache.is_dirty(1));
    cache.get(1).unwrap();
    assert!(cache.is_cached(1));
    assert!(!cache.is_dirty(1));
    assert_eq!(cache.load_cache(2), Ok(()));
    assert!(!cache.is_dirty(2));
    assert!(cache.fill(3, vec![1, 2, 3, 4]));
    assert!(!cache.is_dirty(3));
    cache.get_mut(1).unwrap()[0] = 9;
    assert!(cache.is_dirty(1));
    assert!(!cache.is_dirty(2));
    cache.get(1).unwrap();
    assert!(cache.is_dirty(1));
    assert_eq!(cache.write_sector(2, &[7]), Ok(1));
    assert!(cache.is_dirty(2));
    assert!(cache.get_mut(100).is_err());
    assert!(!cache.is_dirty(100));
    assert!(!cache.is_cached(100));
}

#[test]
fn test_a_device_with_empty_sectors_is_accepted() {
    let (device, reads) = Counting::new(Vec::new(), 0);
    let mut cache = CachedDevice::new(device, Partition { start: 5, sector_size: 0 });
    assert_eq!(cache.sector_size(), 0);
    assert_eq!(cache.virtual_to_physical(3), (3, 1));
    assert_eq!(cache.virtual_to_physical(9), (9, 1));
    assert!(cache.is_addressable(9));
    assert_eq!(cache.get(9).unwrap().len(), 0);
    assert_eq!(*reads.borrow(), vec![9]);
}

#[test]
fn test_no_logical_sector_is_made_of_empty_physical_ones() {
    let (device, reads) = Counting::new(Vec::new(), 0);
    let mut cache = CachedDevice::new(device, Partition { start: 5, sector_size: 512 });
    assert!(cache.is_addressable(4));
    assert_eq!(cache.virtual_to_physical(4), (4, 1));
    assert_eq!(cache.get(4).unwrap().len(), 0);
    assert!(!cache.is_addressable(5));
    assert_eq!(cache.virtual_to_physical(5), (5, 0));
    assert_eq!(cache.get(5).err(), Some(IoError::InvalidInput));
    assert_eq!(cache.load_cache(7), Err(IoError::InvalidInput));
    assert!(!cache.is_cached(5));
    assert_eq!(*reads.borrow(), vec![4]);
}

#[test]
fn test_cache_is_shown_with_its_entries() {
    let (device, _) = Counting::new(numbered(2, 4), 4);
    let mut cache = CachedDevice::new(device, Partition { start: 0, sector_size: 4 });
    cache.get(1).unwrap();
    let shown = format!("{:?}", cache);
    assert!(shown.starts_with("CachedDevice"));
    assert!(shown.contains("cache: {1: CacheEntry { data: [16, 17, 18, 19], dirty: false }}"));
}

#[test]
fn test_a_miss_enters_a_whole_logical_sector() {
    let (device, _) = Counting::new(numbered(16, 4), 4);
    let mut cache = CachedDevice::new(device, Partition { start: 1, sector_size: 8 });
    let mut buf = [0u8; 16];
    assert_eq!(cache.read_sector(2, &mut buf), Ok(8));
    assert_eq!(&buf[..8], &numbered(16, 4)[12..20]);
    assert_eq!(cache.write_sector(3, &[7u8; 16]), Ok(8));
    assert_eq!(cache.get(3).unwrap(), &[7u8; 8][..]);
    assert_eq!(cache.read_sector(0, &mut buf), Ok(4));
    assert_eq!(cache.write_sector(0, &[1u8; 16]), Ok(4));
}
