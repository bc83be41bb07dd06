//! A write-back sector cache that never evicts and never writes back.
//!
//! Entries are keyed by the logical sector number. A logical sector at or
//! after the partition's start is made of `factor` consecutive physical
//! sectors; one before it is the physical sector of the same number.

use crate::traits::{BlockDevice, IoError};
use std::collections::hash_map::Entry;
use std::collections::HashMap;
use vstd::prelude::*;

verus! {

broadcast use vstd::std_specs::hash::group_hash_axioms;

/// The bytes of one cached logical sector, and whether they may have been
/// written to since they were read.
#[derive(Debug)]
pub struct CacheEntry {
    pub data: Vec<u8>,
    pub dirty: bool,
}

impl CacheEntry {
    /// A clean entry that holds `data`.
    pub fn new(data: Vec<u8>) -> (entry: Self)
        ensures
            entry.data == data,
            !entry.dirty,
    {
        CacheEntry { dirty: false, data }
    }
}

/// Where a partition lies on its device.
#[derive(Debug, Clone, Copy, PartialEq, Eq, Structural)]
pub struct Partition {
    /// The physical sector where the partition begins.
    pub start: u64,
    /// The size, in bytes, of a logical sector in the partition.
    pub sector_size: u64,
}

/// A block device seen through a cache of its logical sectors.
#[derive(Debug)]
pub struct CachedDevice<D: BlockDevice> {
    device: D,
    cache: HashMap<u64, CacheEntry>,
    partition: Partition,
    /// The device's sector size when the cache was made.
    sector_size: u64,
    /// The number of physical sectors in a logical one.
    factor: u64,
}

/// Copies `min(dst.len(), src.len())` bytes from the front of `src` to the
/// front of `dst`, and returns how many.
pub fn copy_prefix(dst: &mut [u8], src: &[u8]) -> (count: usize)
    ensures
        count == if old(dst)@.len() <= src@.len() {
            old(dst)@.len()
        } else {
            src@.len()
        },
        final(dst)@ == src@.take(count as int) + old(dst)@.skip(count as int),
{
    let count = if dst.len() <= src.len() {
        dst.len()
    } else {
        src.len()
    };
    let mut i: usize = 0;
    while i < count
        invariant
            i <= count,
            count <= src@.len(),
            count <= dst@.len(),
            dst@.len() == old(dst)@.len(),
            dst@ == src@.take(i as int) + old(dst)@.skip(i as int),
        decreases count - i,
    {
        dst[i] = src[i];
        i += 1;
        assert(dst@ =~= src@.take(i as int) + old(dst)@.skip(i as int));
    }
    count
}

impl<D: BlockDevice> CachedDevice<D> {
    /// The cached sectors: logical sector number to bytes.
    pub closed spec fn view(&self) -> Map<u64, Seq<u8>> {
        Map::new(|s: u64| self.cache@.contains_key(s), |s: u64| self.cache@[s].data@)
    }

    /// The cached sectors that were handed out for writing.
    pub closed spec fn dirty(&self) -> Set<u64> {
        Set::new(|s: u64| self.cache@.contains_key(s) && self.cache@[s].dirty)
    }

    /// The device behind the cache.
    pub closed spec fn device(&self) -> D {
        self.device
    }

    /// The partition that the logical sectors are counted in.
    pub closed spec fn partition(&self) -> Partition {
        self.partition
    }

    /// The size of a physical sector: the device's, when the cache was made.
    pub closed spec fn device_sector_size(&self) -> u64 {
        self.sector_size
    }

    /// The number of physical sectors that make up one logical sector.
    pub closed spec fn factor(&self) -> u64 {
        self.factor
    }

    /// The number of physical sectors of `physical` bytes in one logical
    /// sector of `logical` bytes; none where a physical sector holds no
    /// bytes.
    pub open spec fn ratio(logical: u64, physical: u64) -> int {
        if physical == 0 {
            0
        } else {
            logical as int / physical as int
        }
    }

    /// What `new` establishes and no method changes: the logical sector is
    /// no smaller than the physical one, and `factor` is their ratio.
    pub open spec fn wf(&self) -> bool {
        &&& self.partition().sector_size >= self.device_sector_size()
        &&& self.factor() == Self::ratio(self.partition().sector_size, self.device_sector_size())
    }

    /// Only a cached sector is dirty.
    pub proof fn lemma_dirty_sectors_are_cached(&self)
        ensures
            self.dirty().subset_of(self@.dom()),
    {
    }

    /// Whether two caches map logical sectors to physical ones alike.
    pub open spec fn same_layout(&self, other: &Self) -> bool {
        &&& self.partition() == other.partition()
        &&& self.device_sector_size() == other.device_sector_size()
        &&& self.factor() == other.factor()
    }

    /// Whether this cache is `before` after an access to `sector` that
    /// succeeded or not, as `ok` says: no sector has left the cache; an
    /// access to a cached sector succeeds and leaves the device alone; a
    /// sector that was accessed with success is cached.
    pub open spec fn accessed(&self, before: &Self, sector: u64, ok: bool) -> bool {
        &&& self.same_layout(before)
        &&& before@.dom().subset_of(self@.dom())
        &&& before@.contains_key(sector) ==> ok && self.device() == before.device()
        &&& ok ==> self@.contains_key(sector)
    }

    /// Whether logical sector `virt` is a physical sector of the same
    /// number: the two sector sizes agree, or `virt` lies before the
    /// partition.
    pub open spec fn unmapped(&self, virt: u64) -> bool {
        self.device_sector_size() == self.partition().sector_size || virt < self.partition().start
    }

    /// The first physical sector of logical sector `virt`, and the number
    /// of physical sectors that it is made of.
    pub open spec fn spec_virtual_to_physical(&self, virt: u64) -> (int, int) {
        if self.unmapped(virt) {
            (virt as int, 1)
        } else {
            (
                self.partition().start + (virt - self.partition().start) * self.factor(),
                self.factor() as int,
            )
        }
    }

    /// Whether logical sector `virt` can be read: it is made of physical
    /// sectors that hold bytes, each with a number that fits in 64 bits.
    pub open spec fn addressable(&self, virt: u64) -> bool {
        let mapped = self.spec_virtual_to_physical(virt);
        &&& self.unmapped(virt) || self.device_sector_size() > 0
        &&& mapped.0 <= u64::MAX
        &&& mapped.0 + mapped.1 <= u64::MAX + 1
    }

    /// The number of bytes in the cache entry of logical sector `virt`.
    pub open spec fn entry_len(&self, virt: u64) -> int {
        self.spec_virtual_to_physical(virt).1 * self.device_sector_size()
    }

    /// Creates a new `CachedDevice` that transparently caches sectors from
    /// `device` and maps physical sectors to logical sectors inside of
    /// `partition`. All reads and writes from `CacheDevice` are performed on
    /// in-memory caches.
    ///
    /// The `partition` parameter determines the size of a logical sector and
    /// where logical sectors begin. An access to a sector `n` _before_
    /// `partition.start` is made to physical sector `n`. Cached sectors before
    /// `partition.start` are the size of a physical sector. An access to a
    /// sector `n` at or after `partition.start` is made to the _logical_ sector
    /// `n - partition.start`. Cached sectors at or after `partition.start` are
    /// the size of a logical sector, `partition.sector_size`.
    ///
    /// `partition.sector_size` must be an integer multiple of
    /// `device.sector_size()`, and no smaller. Where the device's sectors
    /// hold no bytes, no logical sector of another size can be read.
    pub fn new(device: D, partition: Partition) -> (cached: CachedDevice<D>)
        requires
            partition.sector_size >= device.spec_sector_size(),
        ensures
            cached.wf(),
            cached@ == Map::<u64, Seq<u8>>::empty(),
            cached.dirty() == Set::<u64>::empty(),
            cached.device() == device,
            cached.partition() == partition,
            cached.device_sector_size() == device.spec_sector_size(),
    {
        let sector_size = device.sector_size();
        let factor: u64 = if sector_size == 0 {
            0
        } else {
            partition.sector_size / sector_size
        };
        let cached = CachedDevice { device, cache: HashMap::new(), partition, sector_size, factor };
        assert(cached@ =~= Map::<u64, Seq<u8>>::empty());
        assert(cached.dirty() =~= Set::<u64>::empty());
        cached
    }

    /// Whether logical sector `sector` is in the cache.
    pub fn is_cached(&self, sector: u64) -> (b: bool)
        ensures
            b == self@.contains_key(sector),
    {
        self.cache.contains_key(&sector)
    }

    /// Whether logical sector `sector` was handed out for writing.
    pub fn is_dirty(&self, sector: u64) -> (b: bool)
        ensures
            b == self.dirty().contains(sector),
    {
        match self.cache.get(&sector) {
            Some(entry) => entry.dirty,
            None => false,
        }
    }

    /// Whether logical sector `virt` can be read: whether it is made of
    /// physical sectors that hold bytes and can be addressed.
    pub fn is_addressable(&self, virt: u64) -> (b: bool)
        ensures
            b == self.addressable(virt),
    {
        if self.sector_size == self.partition.sector_size || virt < self.partition.start {
            true
        } else if self.sector_size == 0 {
            false
        } else {
            let offset = virt - self.partition.start;
            match offset.checked_mul(self.factor) {
                None => false,
                Some(scaled) => match self.partition.start.checked_add(scaled) {
                    None => false,
                    Some(physical) => self.factor == 0 || self.factor - 1 <= u64::MAX - physical,
                },
            }
        }
    }

    /// Maps a user's request for a sector `virt` to the physical sector and
    /// number of physical sectors required to access `virt`.
    pub fn virtual_to_physical(&self, virt: u64) -> (mapped: (u64, u64))
        requires
            self.spec_virtual_to_physical(virt).0 <= u64::MAX,
        ensures
            mapped.0 == self.spec_virtual_to_physical(virt).0,
            mapped.1 == self.spec_virtual_to_physical(virt).1,
    {
        if self.sector_size == self.partition.sector_size {
            (virt, 1)
        } else if virt < self.partition.start {
            (virt, 1)
        } else {
            let factor = self.factor;
            let logical_offset = virt - self.partition.start;
            assert(0 <= logical_offset * factor) by (nonlinear_arith)
                requires
                    0 <= logical_offset,
                    0 <= factor,
            ;
            let physical_offset = logical_offset * factor;
            let physical_sector = self.partition.start + physical_offset;
            (physical_sector, factor)
        }
    }

    /// The `i`-th of the physical sectors that logical sector `virt` is made
    /// of: they follow one another from the first.
    pub fn physical_sector(&self, virt: u64, i: u64) -> (p: u64)
        requires
            self.addressable(virt),
            i < self.spec_virtual_to_physical(virt).1,
        ensures
            p == self.spec_virtual_to_physical(virt).0 + i,
    {
        let (first, _) = self.virtual_to_physical(virt);
        first + i
    }

    /// Enters `data` in the cache as the bytes of logical sector `sector`,
    /// clean, unless the sector is cached: a cached sector is never
    /// replaced. Returns whether the bytes were entered.
    pub fn fill(&mut self, sector: u64, data: Vec<u8>) -> (entered: bool)
        ensures
            final(self).same_layout(old(self)),
            final(self).device() == old(self).device(),
            final(self).dirty() == old(self).dirty(),
            entered ==> !final(self).dirty().contains(sector),
            entered == !old(self)@.contains_key(sector),
            final(self)@ == if entered {
                old(self)@.insert(sector, data@)
            } else {
                old(self)@
            },
    {
        if self.cache.contains_key(&sector) {
            return false;
        }
        self.cache.insert(sector, CacheEntry::new(data));
        assert(self@ =~= old(self)@.insert(sector, data@));
        assert(self.dirty() =~= old(self).dirty());
        true
    }

    /// Reads logical sector `sector` from the device unless the cache
    /// holds it.
    ///
    /// A sector that is cached costs no device access: cache and device
    /// stay as they are. One that is not is read, one physical sector
    /// after the other, and enters the cache clean; should the device
    /// fail or come up short, the cache stays as it was.
    pub fn load_cache(&mut self, sector: u64) -> (r: Result<(), IoError>)
        ensures
            final(self).accessed(old(self), sector, r is Ok),
            final(self).same_layout(old(self)),
            final(self).dirty() == old(self).dirty(),
            old(self)@.submap_of(final(self)@),
            old(self)@.contains_key(sector) ==> {
                &&& r is Ok
                &&& final(self)@ == old(self)@
                &&& final(self).device() == old(self).device()
            },
            !old(self)@.contains_key(sector) && !old(self).addressable(sector) ==> {
                &&& r == Err::<(), IoError>(IoError::InvalidInput)
                &&& final(self)@ == old(self)@
                &&& final(self).device() == old(self).device()
            },
            !old(self)@.contains_key(sector) ==> !final(self).dirty().contains(sector),
            match r {
                Ok(_) => {
                    &&& final(self)@.contains_key(sector)
                    &&& final(self)@ == old(self)@.insert(sector, final(self)@[sector])
                    &&& !old(self)@.contains_key(sector) ==> final(self)@[sector].len()
                        == old(self).entry_len(sector)
                },
                Err(_) => final(self)@ == old(self)@,
            },
    {
        if !self.cache.contains_key(&sector) {
            if !self.is_addressable(sector) {
                return Err(IoError::InvalidInput);
            }
            let (_, factor) = self.virtual_to_physical(sector);
            let mut buf: Vec<u8> = Vec::new();
            let mut i: u64 = 0;
            while i < factor
                invariant
                    i <= factor,
                    factor == old(self).spec_virtual_to_physical(sector).1,
                    !old(self)@.contains_key(sector),
                    old(self).addressable(sector),
                    self.device_sector_size() == self.sector_size,
                    buf@.len() == i * self.sector_size,
                    self.same_layout(old(self)),
                    self.cache@ == old(self).cache@,
                decreases factor - i,
            {
                let physical = self.physical_sector(sector, i);
                let read = self.device.read_all_sector(physical, &mut buf)?;
                if read as u64 != self.sector_size {
                    return Err(IoError::UnexpectedEof);
                }
                assert((i + 1) * self.sector_size == i * self.sector_size + self.sector_size)
                    by (nonlinear_arith);
                i += 1;
            }
            self.fill(sector, buf);
            assert(self@ =~= old(self)@.insert(sector, self@[sector]));
        } else {
            assert(self@ =~= old(self)@.insert(sector, self@[sector]));
        }
        Ok(())
    }

    /// Returns a mutable reference to the cached sector `sector`. If the sector
    /// is not already cached, the sector is first read from the disk.
    ///
    /// The sector is marked dirty as a result of calling this method as it is
    /// presumed that the sector will be written to. If this is not intended,
    /// use `get()` instead.
    ///
    /// # Errors
    ///
    /// Returns an error if there is an error reading the sector from the disk.
    pub fn get_mut(&mut self, sector: u64) -> (r: Result<&mut [u8], IoError>)
        ensures
            final(self).accessed(old(self), sector, r is Ok),
            final(self).same_layout(old(self)),
            old(self)@.contains_key(sector) ==> {
                &&& r is Ok
                &&& r->Ok_0@ == old(self)@[sector]
                &&& final(self).device() == old(self).device()
            },
            !old(self)@.contains_key(sector) && !old(self).addressable(sector) ==> {
                &&& r is Err
                &&& r->Err_0 == IoError::InvalidInput
                &&& final(self).device() == old(self).device()
            },
            r matches Ok(data) ==> final(self)@ =~= old(self)@.insert(sector, final(data)@),
            r matches Ok(data) ==> final(self).dirty() =~= old(self).dirty().insert(sector),
            r matches Ok(data) ==> !old(self)@.contains_key(sector) ==> data@.len() == old(
                self,
            ).entry_len(sector),
            r is Err ==> final(self)@ == old(self)@ && final(self).dirty() == old(self).dirty(),
    {
        match self.load_cache(sector) {
            Ok(_) => {},
            Err(e) => {
                return Err(e);
            },
        }
        match self.entry_mut(sector) {
            Some(data) => Ok(data),
            None => Err(IoError::NotFound),
        }
    }

    /// The bytes of a cached sector, for writing; the sector becomes dirty.
    fn entry_mut(&mut self, sector: u64) -> (r: Option<&mut [u8]>)
        ensures
            final(self).same_layout(old(self)),
            final(self).device() == old(self).device(),
            r is Some == old(self)@.contains_key(sector),
            r matches Some(data) ==> {
                &&& data@ == old(self)@[sector]
                &&& final(self)@ == old(self)@.insert(sector, final(data)@)
                &&& final(self).dirty() == old(self).dirty().insert(sector)
            },
            r is None ==> final(self)@ == old(self)@ && final(self).dirty() == old(self).dirty(),
    {
        match self.cache.entry(sector) {
            Entry::Occupied(occupied) => {
                let entry = occupied.into_mut();
                entry.dirty = true;
                Some(entry.data.as_mut_slice())
            },
            Entry::Vacant(_) => None,
        }
    }

    /// Returns a reference to the cached sector `sector`. If the sector is not
    /// already cached, the sector is first read from the disk.
    ///
    /// # Errors
    ///
    /// Returns an error if there is an error reading the sector from the disk.
    pub fn get(&mut self, sector: u64) -> (r: Result<&[u8], IoError>)
        ensures
            final(self).accessed(old(self), sector, r is Ok),
            final(self).same_layout(old(self)),
            final(self).dirty() == old(self).dirty(),
            old(self)@.submap_of(final(self)@),
            old(self)@.contains_key(sector) ==> {
                &&& r is Ok
                &&& final(self)@ == old(self)@
                &&& final(self).device() == old(self).device()
            },
            !old(self)@.contains_key(sector) && !old(self).addressable(sector) ==> {
                &&& r is Err
                &&& r->Err_0 == IoError::InvalidInput
                &&& final(self).device() == old(self).device()
            },
            !old(self)@.contains_key(sector) ==> !final(self).dirty().contains(sector),
            match r {
                Ok(data) => {
                    &&& final(self)@.contains_key(sector)
                    &&& data@ == final(self)@[sector]
                    &&& final(self)@ == old(self)@.insert(sector, data@)
                    &&& !old(self)@.contains_key(sector) ==> data@.len() == old(self).entry_len(
                        sector,
                    )
                },
                Err(_) => final(self)@ == old(self)@,
            },
    {
        self.load_cache(sector)?;
        match self.cache.get(&sector) {
            Some(entry) => Ok(entry.data.as_slice()),
            None => Err(IoError::NotFound),
        }
    }
}

/// The cache is itself a block device whose sectors are the logical ones;
/// reads and writes go to cached entries and never reach the disk again.
impl<D: BlockDevice> BlockDevice for CachedDevice<D> {
    open spec fn spec_sector_size(&self) -> u64 {
        self.partition().sector_size
    }

    fn sector_size(&self) -> (size: u64) {
        self.partition.sector_size
    }

    /// Copies the front of the cached sector `n` to the front of `buf`:
    /// as many bytes as both hold.
    fn read_sector(&mut self, n: u64, buf: &mut [u8]) -> (r: Result<usize, IoError>)
        ensures
            final(self).same_layout(old(self)),
            final(self).dirty() == old(self).dirty(),
            old(self)@.submap_of(final(self)@),
            old(self)@.contains_key(n) ==> {
                &&& r is Ok
                &&& final(self)@ == old(self)@
                &&& final(self).device() == old(self).device()
            },
            match r {
                Ok(read) => {
                    &&& final(self)@.contains_key(n)
                    &&& final(self)@ == old(self)@.insert(n, final(self)@[n])
                    &&& read == if old(buf)@.len() <= final(self)@[n].len() {
                        old(buf)@.len()
                    } else {
                        final(self)@[n].len()
                    }
                    &&& final(buf)@ == final(self)@[n].take(read as int) + old(buf)@.skip(
                        read as int,
                    )
                    &&& !old(self)@.contains_key(n) ==> final(self)@[n].len() == old(
                        self,
                    ).entry_len(n)
                },
                Err(_) => final(self)@ == old(self)@ && final(buf)@ == old(buf)@,
            },
    {
        let data = self.get(n)?;
        Ok(copy_prefix(buf, data))
    }

    /// Copies the front of `buf` to the front of the cached sector `n`,
    /// as many bytes as both hold, and marks the sector dirty.
    fn write_sector(&mut self, n: u64, buf: &[u8]) -> (r: Result<usize, IoError>)
        ensures
            final(self).same_layout(old(self)),
            old(self)@.contains_key(n) ==> {
                &&& r is Ok
                &&& final(self)@[n].len() == old(self)@[n].len()
                &&& final(self)@[n] == buf@.take(r->Ok_0 as int) + old(self)@[n].skip(
                    r->Ok_0 as int,
                )
                &&& final(self).device() == old(self).device()
            },
            match r {
                Ok(written) => {
                    &&& final(self)@.contains_key(n)
                    &&& final(self)@ == old(self)@.insert(n, final(self)@[n])
                    &&& final(self).dirty() == old(self).dirty().insert(n)
                    &&& written == if final(self)@[n].len() <= buf@.len() {
                        final(self)@[n].len()
                    } else {
                        buf@.len()
                    }
                    &&& final(self)@[n].take(written as int) == buf@.take(written as int)
                    &&& !old(self)@.contains_key(n) ==> final(self)@[n].len() == old(
                        self,
                    ).entry_len(n)
                },
                Err(_) => final(self)@ == old(self)@ && final(self).dirty() == old(self).dirty(),
            },
    {
        let data = self.get_mut(n)?;
        let ghost before = data@;
        let written = copy_prefix(data, buf);
        proof {
            assert(data@.take(written as int) =~= buf@.take(written as int));
            assert(data@.len() == before.len());
        }
        Ok(written)
    }
}

/// Whether the `k`-th of a row of accesses to `sector` leads from the
/// `k`-th state to the next.
pub open spec fn access_at<D: BlockDevice>(
    states: Seq<CachedDevice<D>>,
    oks: Seq<bool>,
    sector: u64,
    k: int,
) -> bool {
    states[k + 1].accessed(&states[k], sector, oks[k])
}

/// In any row of accesses to one logical sector, every access after one
/// that succeeded finds the sector cached, succeeds, and leaves the device
/// as it was: the device is read for a sector at most until the sector
/// has once been read in full.
pub proof fn lemma_cached_sector_is_not_read_again<D: BlockDevice>(
    states: Seq<CachedDevice<D>>,
    oks: Seq<bool>,
    sector: u64,
    i: int,
    j: int,
)
    requires
        states.len() == oks.len() + 1,
        forall|k: int| 0 <= k < oks.len() ==> #[trigger] access_at(states, oks, sector, k),
        0 <= i < j < oks.len(),
        oks[i],
    ensures
        states[j]@.contains_key(sector),
        oks[j],
        states[j + 1].device() == states[j].device(),
    decreases j - i,
{
    assert(access_at(states, oks, sector, j));
    if j == i + 1 {
        assert(access_at(states, oks, sector, i));
    } else {
        lemma_cached_sector_is_not_read_again(states, oks, sector, i, j - 1);
        assert(access_at(states, oks, sector, j - 1));
    }
}

} // verus!
