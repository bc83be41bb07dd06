//! The filesystem handle: the cached device, the volume's geometry, and the
//! reads of tables, clusters and chains.
//!
//! Every read goes through the cache, which only grows. A read whose
//! sectors are all cached touches neither cache nor device, and its result
//! is the one that the cached sectors determine.

use crate::cache::{CachedDevice, Partition};
use crate::cluster::Cluster;
use crate::dir::{find_entry, lemma_name_len_bounds, name_end, Dir, Entry, File, SLASH};
use crate::ebpb::BiosParameterBlock;
use crate::fat::{FatEntry, Status};
use crate::geometry::{
    chain_bytes, chain_from, cluster_byte, cluster_bytes, cluster_read, fat_entry_at, leads,
    lemma_chain_here, lemma_chain_start, lemma_chain_step, lemma_circle_has_no_end,
    lemma_cluster_read_grows, lemma_leads_grows, lemma_leads_on, lemma_position_sector,
    lemma_sector_of, lemma_sectors_ready_each, lemma_sectors_ready_grows,
    lemma_sectors_ready_sticks,
    lemma_submap_chain, sector_ready, sectors_ready, Geometry, Outcome, Sectors, MAX_CHAIN,
    MAX_START,
};
use crate::mbr::{Error, MasterBootRecord};
use crate::path::{
    lemma_resolve_needs_lookup, lemma_resolving_grows, lemma_resolving_here,
    lemma_resolving_slash, lemma_resolving_step, lemma_resolving_stops, lookup, resolve,
    resolving, root_of,
};
use crate::traits::{BlockDevice, IoError};
use crate::util::read_u32;
use vstd::prelude::*;
use vstd::slice::slice_subrange;

verus! {

/// A mounted FAT32 volume.
#[derive(Debug)]
pub struct VFat<D: BlockDevice> {
    device: CachedDevice<D>,
    bytes_per_sector: u16,
    sectors_per_cluster: u8,
    sectors_per_fat: u32,
    fat_start_sector: u64,
    data_start_sector: u64,
    root_dir_cluster: Cluster,
}

/// Whether a result is the answer that the cached sectors give after a
/// read: where they determine an answer, it is the result, and they do
/// wherever the read succeeded. What they determined before the read,
/// they determine after it.
pub open spec fn settled<T>(before: Outcome<T>, after: Outcome<T>, r: Result<T, IoError>) -> bool {
    &&& before is Some ==> after == before
    &&& after is Some ==> after == Some(r)
    &&& r is Ok ==> after is Some
}

/// The bytes of a path: its UTF-8 encoding.
pub open spec fn path_bytes(path: &str) -> Seq<u8> {
    vstd::string::StringSliceAdditionalSpecFns::spec_bytes(path)
}

/// Copies `count` bytes from `src[from..]` to `dst[at..]`.
pub fn copy_range(dst: &mut [u8], at: usize, src: &[u8], from: usize, count: usize)
    requires
        at + count <= old(dst)@.len(),
        from + count <= src@.len(),
    ensures
        final(dst)@ == old(dst)@.take(at as int) + src@.subrange(from as int, from + count)
            + old(dst)@.skip(at + count),
{
    let total = dst.len();
    let available = src.len();
    let mut i: usize = 0;
    while i < count
        invariant
            i <= count,
            at + count <= total,
            from + count <= available,
            available == src@.len(),
            dst@.len() == total,
            total == old(dst)@.len(),
            dst@ == old(dst)@.take(at as int) + src@.subrange(from as int, from + i)
                + old(dst)@.skip(at + i),
        decreases count - i,
    {
        dst[at + i] = src[from + i];
        i += 1;
        assert(dst@ =~= old(dst)@.take(at as int) + src@.subrange(from as int, from + i)
            + old(dst)@.skip(at + i));
    }
}

impl<D: BlockDevice> VFat<D> {
    /// The cached sectors of the volume's device.
    pub closed spec fn view(&self) -> Sectors {
        self.device@
    }

    /// Where the tables and the data lie.
    pub closed spec fn geometry(&self) -> Geometry {
        Geometry {
            bytes_per_sector: self.bytes_per_sector,
            sectors_per_cluster: self.sectors_per_cluster,
            sectors_per_fat: self.sectors_per_fat,
            fat_start_sector: self.fat_start_sector,
            data_start_sector: self.data_start_sector,
            root_dir_cluster: self.root_dir_cluster,
        }
    }

    /// The device under the cache.
    pub closed spec fn device(&self) -> D {
        self.device.device()
    }

    /// The partition that the cache counts logical sectors in.
    pub closed spec fn partition(&self) -> Partition {
        self.device.partition()
    }

    /// What the constructors establish and no method changes.
    pub open spec fn wf(&self) -> bool {
        self.geometry().wf()
    }

    /// Whether this volume is `before` after reads: the same geometry, the
    /// same partition, and every sector that was cached still cached with
    /// the same bytes.
    pub open spec fn extends(&self, before: &Self) -> bool {
        &&& self.geometry() == before.geometry()
        &&& self.partition() == before.partition()
        &&& before@.submap_of(self@)
    }

    /// Whether neither the cache nor the device differs from `before`.
    pub open spec fn untouched(&self, before: &Self) -> bool {
        &&& self@ == before@
        &&& self.device() == before.device()
    }

    /// The table entry of cluster `c`, as the cached sectors hold it.
    pub open spec fn entry_at(&self, c: Cluster) -> Outcome<FatEntry> {
        fat_entry_at(self@, self.geometry(), c)
    }

    /// What the cached sectors give for a read of cluster `c` at `offset`
    /// into a buffer of `len` bytes.
    pub open spec fn cluster_at(&self, c: Cluster, offset: int, len: int) -> Outcome<Seq<u8>> {
        cluster_read(self@, self.geometry(), c, offset, len)
    }

    /// The bytes of the chain that starts at cluster `c`, as the cached
    /// sectors hold them. A chain is cut off at as many clusters as there
    /// are cluster numbers.
    pub open spec fn chain_at(&self, c: Cluster) -> Outcome<Seq<u8>> {
        chain_bytes(self@, self.geometry(), c, self.geometry().chain_limit())
    }

    /// What `name` names in the directory `cur`, as the cached sectors
    /// hold it.
    pub open spec fn named_in(&self, cur: Entry, name: Seq<u8>) -> Outcome<Entry> {
        lookup(self@, self.geometry(), cur, name)
    }

    /// What `path` names from the root directory down, as the cached
    /// sectors hold it.
    pub open spec fn named(&self, path: Seq<u8>) -> Outcome<Entry> {
        resolve(self@, self.geometry(), path, root_of(self.geometry()))
    }

    /// The table entry of `cluster`, read through the cache from the sector
    /// that covers it.
    pub fn fat_entry(&mut self, cluster: Cluster) -> (r: Result<FatEntry, IoError>)
        requires
            old(self).wf(),
        ensures
            final(self).extends(old(self)),
            old(self).entry_at(cluster) is Some ==> final(self).untouched(old(self)),
            settled(old(self).entry_at(cluster), final(self).entry_at(cluster), r),
    {
        let size: u64 = self.bytes_per_sector as u64;
        let position: u64 = (cluster.clus_num() as u64) * 4;
        let sector: u64 = self.fat_start_sector + position / size;
        let offset: usize = (position % size) as usize;
        let r = match self.device.get(sector) {
            Ok(data) => {
                if data.len() < 4 || offset > data.len() - 4 {
                    Err(IoError::InvalidData)
                } else {
                    Ok(FatEntry(read_u32(data, offset)))
                }
            },
            Err(e) => Err(e),
        };
        r
    }

    /// Loads logical sector `sector` into the cache and checks that it
    /// holds a sector's worth of bytes: one that does not is `InvalidData`.
    fn ready(&mut self, sector: u64) -> (r: Result<(), IoError>)
        requires
            old(self).wf(),
        ensures
            final(self).extends(old(self)),
            old(self)@.contains_key(sector) ==> final(self).untouched(old(self)),
            settled(
                sector_ready(
                    old(self)@,
                    sector as int,
                    old(self).geometry().bytes_per_sector as int,
                ),
                sector_ready(
                    final(self)@,
                    sector as int,
                    old(self).geometry().bytes_per_sector as int,
                ),
                r,
            ),
    {
        let size: usize = self.bytes_per_sector as usize;
        match self.device.get(sector) {
            Ok(data) => {
                if data.len() != size {
                    Err(IoError::InvalidData)
                } else {
                    Ok(())
                }
            },
            Err(e) => Err(e),
        }
    }

    /// Loads the logical sectors `first + from .. first + to` into the
    /// cache, one after the other, and stops at the first that cannot be
    /// read or does not hold a sector's worth of bytes.
    fn load_sectors(&mut self, first: u64, from: usize, to: usize) -> (r: Result<(), IoError>)
        requires
            old(self).wf(),
            from <= to,
            first + to <= u64::MAX,
        ensures
            final(self).extends(old(self)),
            sectors_ready(
                old(self)@,
                old(self).geometry().bytes_per_sector as int,
                first as int,
                from as int,
                to as int,
            ) is Some ==> final(self).untouched(old(self)),
            settled(
                sectors_ready(
                    old(self)@,
                    old(self).geometry().bytes_per_sector as int,
                    first as int,
                    from as int,
                    to as int,
                ),
                sectors_ready(
                    final(self)@,
                    old(self).geometry().bytes_per_sector as int,
                    first as int,
                    from as int,
                    to as int,
                ),
                r,
            ),
    {
        let ghost g = self.geometry();
        let ghost m0 = self@;
        let ghost d0 = self.device();
        let ghost size = g.bytes_per_sector as int;
        let mut k: usize = from;
        while k < to
            invariant
                self.geometry() == g,
                self.partition() == old(self).partition(),
                g == old(self).geometry(),
                m0 == old(self)@,
                d0 == old(self).device(),
                g.wf(),
                size == g.bytes_per_sector,
                from <= k <= to,
                first + to <= u64::MAX,
                m0.submap_of(self@),
                sectors_ready(self@, size, first as int, from as int, k as int) == Some(
                    Ok::<(), IoError>(()),
                ),
                sectors_ready(m0, size, first as int, from as int, to as int) is Some ==> self@ == m0
                    && self.device() == d0,
            decreases to - k,
        {
            let ghost m1 = self@;
            proof {
                if sectors_ready(m0, size, first as int, from as int, k + 1) is None {
                    lemma_sectors_ready_sticks(
                        m0,
                        size,
                        first as int,
                        from as int,
                        k + 1,
                        to as int,
                    );
                }
            }
            let step = self.ready(first + k as u64);
            proof {
                lemma_submap_chain(m0, m1, self@);
                lemma_sectors_ready_grows(m1, self@, size, first as int, from as int, k as int);
            }
            if let Err(e) = step {
                proof {
                    lemma_sectors_ready_sticks(
                        self@,
                        size,
                        first as int,
                        from as int,
                        k + 1,
                        to as int,
                    );
                }
                return Err(e);
            }
            k = k + 1;
        }
        Ok(())
    }

    /// Copies the `n` bytes from position `offset` on of the cluster whose
    /// first sector is `first` to the front of `buf`, from sectors that
    /// the cache holds: nothing is read from the device.
    fn copy_sectors(&mut self, first: u64, offset: usize, buf: &mut [u8], n: usize) -> (r: Result<
        (),
        IoError,
    >)
        requires
            old(self).wf(),
            0 < n <= old(buf)@.len(),
            offset + n <= 0xFFFF * 0xFF,
            first + offset + n <= u64::MAX,
            sectors_ready(
                old(self)@,
                old(self).geometry().bytes_per_sector as int,
                first as int,
                offset as int / old(self).geometry().bytes_per_sector as int,
                (offset + n - 1) / old(self).geometry().bytes_per_sector as int + 1,
            ) == Some(Ok::<(), IoError>(())),
        ensures
            final(self).extends(old(self)),
            final(self).untouched(old(self)),
            r is Ok,
            final(buf)@.len() == old(buf)@.len(),
            forall|i: int|
                0 <= i < n ==> final(buf)@[i] == cluster_byte(
                    old(self)@,
                    old(self).geometry(),
                    first as int,
                    offset + i,
                ),
            final(buf)@.skip(n as int) == old(buf)@.skip(n as int),
    {
        let ghost g = self.geometry();
        let ghost m0 = self@;
        let ghost d0 = self.device();
        let ghost len = buf@.len() as int;
        let size: usize = self.bytes_per_sector as usize;
        let mut k: usize = offset / size;
        let ghost from = (offset as int) / (size as int);
        let ghost last = (offset + n - 1) / (size as int);
        proof {
            vstd::arithmetic::div_mod::lemma_fundamental_div_mod(offset as int, size as int);
            vstd::arithmetic::div_mod::lemma_div_pos_is_pos(offset as int, size as int);
            vstd::arithmetic::mul::lemma_mul_is_commutative(k as int, size as int);
        }
        let mut base: usize = k * size;
        let mut copied: usize = 0;
        while copied < n
            invariant
                self.geometry() == g,
                self.partition() == old(self).partition(),
                g == old(self).geometry(),
                self@ == m0,
                self.device() == d0,
                m0 == old(self)@,
                d0 == old(self).device(),
                g.wf(),
                size == g.bytes_per_sector,
                0 < n <= len,
                offset + n <= 0xFFFF * 0xFF,
                first + offset + n <= u64::MAX,
                buf@.len() == len,
                old(buf)@.len() == len,
                from == (offset as int) / (size as int),
                last == (offset + n - 1) / (size as int),
                copied <= n,
                base == k * size,
                from <= k,
                copied < n ==> base <= offset + copied < base + size,
                0 < copied < n ==> offset + copied == base,
                sectors_ready(m0, size as int, first as int, from, last + 1) == Some(
                    Ok::<(), IoError>(()),
                ),
                forall|i: int|
                    0 <= i < copied ==> buf@[i] == cluster_byte(m0, g, first as int, offset + i),
                buf@.skip(copied as int) == old(buf)@.skip(copied as int),
            decreases n - copied,
        {
            let ghost before = buf@;
            proof {
                lemma_sector_of(offset + copied, size as int, k as int);
                lemma_position_sector(offset as int, n as int, size as int, copied as int);
                lemma_sectors_ready_each(m0, size as int, first as int, from, last + 1, k as int);
                assert(k * size <= offset + copied);
            }
            let within: usize = offset + copied - base;
            let take: usize = if size - within <= n - copied {
                size - within
            } else {
                n - copied
            };
            let sector: u64 = first + k as u64;
            let data = self.device.get(sector)?;
            copy_range(buf, copied, data, within, take);
            proof {
                assert forall|i: int| 0 <= i < copied + take implies buf@[i] == cluster_byte(
                    m0,
                    g,
                    first as int,
                    offset + i,
                ) by {
                    if i < copied {
                        assert(buf@[i] == before.take(copied as int)[i]);
                    } else {
                        lemma_sector_of(offset + i, size as int, k as int);
                        assert(buf@[i] == data@.subrange(within as int, within + take)[i - copied]);
                    }
                }
                assert(buf@.skip(copied + take) =~= before.skip(copied as int).skip(take as int));
                assert(old(buf)@.skip(copied + take) =~= old(buf)@.skip(copied as int).skip(
                    take as int,
                ));
                assert((k + 1) * size == k * size + size) by (nonlinear_arith);
            }
            copied = copied + take;
            k = k + 1;
            base = base + size;
        }
        Ok(())
    }

    /// Reads cluster `cluster` from `offset` on into the front of `buf`,
    /// through the cache, and returns the number of bytes copied: what is
    /// left of the cluster, or `buf.len()` if that is less.
    ///
    /// The sectors that the read needs are loaded first, one after the
    /// other; the bytes are copied once all of them are cached. A cluster
    /// number below 2 is `InvalidInput`; a cached sector that does not hold
    /// a sector's worth of bytes is `InvalidData`. On any error `buf` is
    /// left as it was, and the bytes of `buf` behind those that the read is
    /// for stay as they were in any case.
    pub fn read_cluster(&mut self, cluster: Cluster, offset: usize, buf: &mut [u8]) -> (r: Result<
        usize,
        IoError,
    >)
        requires
            old(self).wf(),
        ensures
            final(self).extends(old(self)),
            old(self).cluster_at(cluster, offset as int, old(buf)@.len() as int) is Some ==> {
                &&& final(self).untouched(old(self))
                &&& final(self).cluster_at(cluster, offset as int, old(buf)@.len() as int) == old(
                    self,
                ).cluster_at(cluster, offset as int, old(buf)@.len() as int)
            },
            match final(self).cluster_at(cluster, offset as int, old(buf)@.len() as int) {
                Some(Ok(bytes)) => r is Ok && r->Ok_0 == bytes.len() && final(buf)@ == bytes + old(
                    buf,
                )@.skip(bytes.len() as int),
                Some(Err(e)) => r == Err::<usize, IoError>(e),
                None => r is Err,
            },
            final(buf)@.len() == old(buf)@.len(),
            final(buf)@.skip(old(self).geometry().read_len(offset as int, old(buf)@.len() as int))
                == old(buf)@.skip(
                old(self).geometry().read_len(offset as int, old(buf)@.len() as int),
            ),
            r is Err ==> final(buf)@ == old(buf)@,
    {
        let ghost g = self.geometry();
        let ghost m0 = self@;
        if !cluster.is_valid() {
            return Err(IoError::InvalidInput);
        }
        let size: usize = self.bytes_per_sector as usize;
        let per_cluster: usize = self.sectors_per_cluster as usize;
        assert(size * per_cluster <= 0xFFFF * 0xFF) by (nonlinear_arith)
            requires
                size <= 0xFFFF,
                per_cluster <= 0xFF,
        ;
        let cluster_size: usize = size * per_cluster;
        if offset >= cluster_size {
            assert(buf@ =~= Seq::<u8>::empty() + buf@.skip(0));
            return Ok(0);
        }
        let n: usize = if buf.len() <= cluster_size - offset {
            buf.len()
        } else {
            cluster_size - offset
        };
        if n == 0 {
            assert(buf@ =~= Seq::<u8>::empty() + buf@.skip(0));
            return Ok(0);
        }
        let index: u64 = cluster.index() as u64;
        assert(index * (per_cluster as u64) <= 0xFFFF_FFFF * 0xFF) by (nonlinear_arith)
            requires
                index <= 0xFFFF_FFFF,
                per_cluster <= 0xFF,
        ;
        let first: u64 = self.data_start_sector + index * (per_cluster as u64);
        let from: usize = offset / size;
        let to: usize = (offset + n - 1) / size + 1;
        proof {
            lemma_position_sector(offset as int, n as int, size as int, 0);
            vstd::arithmetic::div_mod::lemma_div_is_ordered_by_denominator(
                offset + n - 1,
                1,
                size as int,
            );
            vstd::arithmetic::div_mod::lemma_div_basics(offset + n - 1);
        }
        if let Err(e) = self.load_sectors(first, from, to) {
            return Err(e);
        }
        let ghost m1 = self@;
        if let Err(e) = self.copy_sectors(first, offset, buf, n) {
            return Err(e);
        }
        proof {
            let bytes = Seq::new(n as nat, |i: int| cluster_byte(m1, g, first as int, offset + i));
            assert(buf@ =~= bytes + old(buf)@.skip(n as int));
        }
        Ok(n)
    }

    /// Reads all of the clusters chained from `start` and appends them to
    /// `buf`; returns the number of bytes appended.
    ///
    /// A table entry that points on continues the chain, one that marks the
    /// end of the chain ends the read. A free, reserved or bad entry is
    /// `CorruptChain`, and so is a chain that comes by a cluster twice: it
    /// has no end, and the read stops when it meets a cluster again. On any
    /// error `buf` is left as it was.
    pub fn read_chain(&mut self, start: Cluster, buf: &mut Vec<u8>) -> (r: Result<usize, IoError>)
        requires
            old(self).wf(),
        ensures
            final(self).extends(old(self)),
            old(self).chain_at(start) is Some ==> final(self).untouched(old(self)),
            match final(self).chain_at(start) {
                Some(Ok(bytes)) => r is Ok && r->Ok_0 == bytes.len() && final(buf)@ == old(buf)@
                    + bytes,
                Some(Err(e)) => r == Err::<usize, IoError>(e),
                None => r is Err,
            },
            r is Err ==> final(buf)@ == old(buf)@,
    {
        let ghost g = self.geometry();
        let ghost m0 = self@;
        let ghost d0 = self.device();
        let ghost limit = g.chain_limit();
        let ghost mut acc: Seq<u8> = Seq::empty();
        let kept: usize = buf.len();
        let size: usize = self.bytes_per_sector as usize;
        let per_cluster: usize = self.sectors_per_cluster as usize;
        assert(size * per_cluster <= 0xFFFF * 0xFF) by (nonlinear_arith)
            requires
                size <= 0xFFFF,
                per_cluster <= 0xFF,
        ;
        let cluster_size: usize = size * per_cluster;
        let mut fuel: u64 = MAX_CHAIN;
        let mut cur: Cluster = start;
        // The walk keeps one cluster that it has passed in mind, and a new
        // one after twice as many steps: a chain that runs in a circle
        // comes back to the one it kept.
        let mut mark: Cluster = start;
        let mut lap: u64 = 0;
        let mut span: u64 = 1;
        proof {
            lemma_chain_start(m0, g, start, limit);
            assert(buf@ =~= old(buf)@ + acc);
        }
        while fuel > 0
            invariant
                self.geometry() == g,
                self.partition() == old(self).partition(),
                g == old(self).geometry(),
                m0 == old(self)@,
                d0 == old(self).device(),
                limit == g.chain_limit(),
                g.wf(),
                cluster_size == g.cluster_size(),
                kept == old(buf)@.len(),
                buf@ == old(buf)@ + acc,
                m0.submap_of(self@),
                chain_from(self@, g, start, limit, acc, cur, fuel as nat),
                chain_bytes(m0, g, start, limit) is Some ==> self@ == m0 && self.device() == d0,
                leads(self@, g, mark, lap as nat, cur),
                lap + fuel <= MAX_CHAIN,
                1 <= span <= MAX_CHAIN,
            decreases fuel,
        {
            let ghost m1 = self@;
            proof {
                lemma_chain_here(m1, m1, g, start, limit, acc, cur, fuel as nat);
            }
            let mut piece: Vec<u8> = vec![0u8; cluster_size];
            let read = self.read_cluster(cur, 0, piece.as_mut_slice());
            let ghost m2 = self@;
            proof {
                lemma_submap_chain(m0, m1, m2);
                lemma_chain_here(m1, m2, g, start, limit, acc, cur, fuel as nat);
            }
            if let Err(e) = read {
                buf.truncate(kept);
                assert(buf@ =~= old(buf)@);
                return Err(e);
            }
            let ghost bytes = piece@;
            proof {
                assert(cluster_bytes(m2, g, cur) is Some);
                let got = cluster_bytes(m2, g, cur)->0->Ok_0;
                assert(got.len() == piece@.len());
                assert(piece@ =~= got + Seq::<u8>::empty());
                assert(piece@ =~= got);
            }
            let entry = self.fat_entry(cur);
            let ghost m3 = self@;
            proof {
                lemma_submap_chain(m0, m2, m3);
                lemma_submap_chain(m1, m2, m3);
                lemma_chain_here(m1, m3, g, start, limit, acc, cur, fuel as nat);
                lemma_cluster_read_grows(m2, m3, g, cur, 0, g.cluster_size());
            }
            let entry = match entry {
                Ok(entry) => entry,
                Err(e) => {
                    buf.truncate(kept);
                    assert(buf@ =~= old(buf)@);
                    return Err(e);
                },
            };
            buf.append(&mut piece);
            match entry.status() {
                Status::Data(next) => {
                    proof {
                        lemma_chain_step(m1, m3, g, start, limit, acc, cur, fuel as nat, bytes, next);
                        lemma_leads_grows(m1, m3, g, mark, lap as nat, cur);
                        lemma_leads_on(m3, g, mark, lap as nat, cur, next);
                        acc = acc + bytes;
                        assert(buf@ =~= old(buf)@ + acc);
                    }
                    cur = next;
                    fuel = fuel - 1;
                    lap = lap + 1;
                    if cur == mark {
                        proof {
                            lemma_circle_has_no_end(m3, g, mark, lap as nat, fuel as nat);
                            lemma_chain_here(m3, m3, g, start, limit, acc, cur, fuel as nat);
                        }
                        buf.truncate(kept);
                        assert(buf@ =~= old(buf)@);
                        return Err(IoError::CorruptChain);
                    }
                    if lap == span {
                        mark = cur;
                        lap = 0;
                        if span <= MAX_CHAIN / 2 {
                            span = span + span;
                        }
                        assert(leads(m3, g, mark, 0, cur));
                    }
                },
                Status::Eoc(_) => {
                    proof {
                        assert(buf@ =~= old(buf)@ + (acc + bytes));
                    }
                    return Ok(buf.len() - kept);
                },
                _ => {
                    buf.truncate(kept);
                    assert(buf@ =~= old(buf)@);
                    return Err(IoError::CorruptChain);
                },
            }
        }
        proof {
            lemma_chain_here(self@, self@, g, start, limit, acc, cur, 0);
        }
        buf.truncate(kept);
        assert(buf@ =~= old(buf)@);
        Err(IoError::CorruptChain)
    }

    /// Looks `name` up in the directory `cur`, reading the directory's
    /// chain through the cache.
    ///
    /// Fails with `NotADirectory` if `cur` is a file, with `NotFound` if the
    /// directory holds no such name, and with what reading the chain gives.
    pub fn descend(&mut self, cur: Entry, name: &[u8]) -> (r: Result<Entry, IoError>)
        requires
            old(self).wf(),
        ensures
            final(self).extends(old(self)),
            old(self).named_in(cur, name@) is Some ==> final(self).untouched(old(self)),
            settled(old(self).named_in(cur, name@), final(self).named_in(cur, name@), r),
    {
        let dir = match cur {
            Entry::File(_) => {
                return Err(IoError::NotADirectory);
            },
            Entry::Dir(dir) => dir,
        };
        let mut content: Vec<u8> = Vec::new();
        let read = self.read_chain(dir.cluster, &mut content);
        proof {
            assert(content@ =~= Seq::<u8>::empty() + content@);
        }
        if let Err(e) = read {
            return Err(e);
        }
        match find_entry(content.as_slice(), name, self.root_dir_cluster) {
            None => Err(IoError::NotFound),
            Some(next) => Ok(next),
        }
    }

    /// Whether this volume and `r` are what opening `path` on `before`
    /// leaves and gives: the cache has only grown; if the cached sectors
    /// already said what the path names, nothing was read; and `r` is what
    /// the cached sectors now say.
    pub open spec fn opens(&self, before: &Self, path: Seq<u8>, r: Result<Entry, IoError>) -> bool {
        &&& self.extends(before)
        &&& before.named(path) is Some ==> self.untouched(before)
        &&& settled(before.named(path), self.named(path), r)
    }

    /// Resolves `path` from the root directory down: each name is looked
    /// up in the directory that the names before it lead to.
    ///
    /// Fails with `NotFound` if a name has no match, and with
    /// `NotADirectory` if a name that is not the last one names a file.
    pub fn open(&mut self, path: &str) -> (r: Result<Entry, IoError>)
        requires
            old(self).wf(),
        ensures
            final(self).opens(old(self), path_bytes(path), r),
    {
        let ghost g = self.geometry();
        let ghost m0 = self@;
        let ghost d0 = self.device();
        let ghost p = path_bytes(path);
        let ghost root = root_of(g);
        let bytes = path.as_bytes();
        let len = bytes.len();
        let mut cur = Entry::Dir(Dir { cluster: self.root_dir_cluster });
        let mut i: usize = 0;
        proof {
            assert(p.skip(0) =~= p);
        }
        while i < len
            invariant
                self.geometry() == g,
                self.partition() == old(self).partition(),
                g == old(self).geometry(),
                m0 == old(self)@,
                d0 == old(self).device(),
                g.wf(),
                root == root_of(g),
                p == path_bytes(path),
                p == bytes@,
                len == p.len(),
                i <= len,
                m0.submap_of(self@),
                resolving(self@, g, p, root, p.skip(i as int), cur),
                resolve(m0, g, p, root) is Some ==> self@ == m0 && self.device() == d0,
            decreases len - i,
        {
            let ghost rest = p.skip(i as int);
            let ghost m1 = self@;
            if bytes[i] == SLASH {
                proof {
                    lemma_resolving_slash(m1, g, p, root, rest, cur);
                    assert(rest.skip(1) =~= p.skip(i + 1));
                }
                i += 1;
            } else {
                let to = name_end(bytes, i);
                let name = slice_subrange(bytes, i, to);
                proof {
                    lemma_name_len_bounds(rest);
                    assert(rest.take(to - i) =~= p.subrange(i as int, to as int));
                    assert(rest.skip(to - i) =~= p.skip(to as int));
                    lemma_resolving_here(m1, m1, g, p, root, rest, cur);
                    if resolve(m0, g, p, root) is Some {
                        lemma_resolve_needs_lookup(m1, g, rest, cur);
                    }
                }
                let found = self.descend(cur, name);
                let ghost m2 = self@;
                proof {
                    lemma_submap_chain(m0, m1, m2);
                    lemma_resolving_grows(m1, m2, g, p, root, rest, cur);
                }
                match found {
                    Ok(next) => {
                        proof {
                            lemma_resolving_step(m2, g, p, root, rest, cur, next);
                        }
                        cur = next;
                        i = to;
                    },
                    Err(e) => {
                        proof {
                            lemma_resolving_stops(m2, g, p, root, rest, cur);
                        }
                        return Err(e);
                    },
                }
            }
        }
        proof {
            lemma_resolving_here(self@, self@, g, p, root, p.skip(i as int), cur);
        }
        Ok(cur)
    }

    /// Refused: the volume is mounted read-only.
    pub fn create_file(&self, _path: &str) -> (r: Result<File, IoError>)
        ensures
            r == Err::<File, IoError>(IoError::ReadOnlyFilesystem),
    {
        Err(IoError::ReadOnlyFilesystem)
    }

    /// Refused: the volume is mounted read-only.
    pub fn create_dir(&self, _path: &str, _parents: bool) -> (r: Result<Dir, IoError>)
        ensures
            r == Err::<Dir, IoError>(IoError::ReadOnlyFilesystem),
    {
        Err(IoError::ReadOnlyFilesystem)
    }

    /// Refused: the volume is mounted read-only.
    pub fn rename(&self, _from: &str, _to: &str) -> (r: Result<(), IoError>)
        ensures
            r == Err::<(), IoError>(IoError::ReadOnlyFilesystem),
    {
        Err(IoError::ReadOnlyFilesystem)
    }

    /// Refused: the volume is mounted read-only.
    pub fn remove(&self, _path: &str, _children: bool) -> (r: Result<(), IoError>)
        ensures
            r == Err::<(), IoError>(IoError::ReadOnlyFilesystem),
    {
        Err(IoError::ReadOnlyFilesystem)
    }

    /// A volume with the given geometry on a cached device. Fails with
    /// `InvalidData` exactly when the geometry is not well formed.
    pub fn new(device: CachedDevice<D>, geometry: Geometry) -> (r: Result<VFat<D>, IoError>)
        ensures
            match r {
                Ok(vfat) => {
                    &&& geometry.wf()
                    &&& vfat.wf()
                    &&& vfat.geometry() == geometry
                    &&& vfat@ == device@
                    &&& vfat.device() == device.device()
                    &&& vfat.partition() == device.partition()
                },
                Err(e) => !geometry.wf() && e == IoError::InvalidData,
            },
    {
        if geometry.bytes_per_sector == 0 || geometry.fat_start_sector > MAX_START
            || geometry.data_start_sector > MAX_START {
            return Err(IoError::InvalidData);
        }
        Ok(
            VFat {
                device,
                bytes_per_sector: geometry.bytes_per_sector,
                sectors_per_cluster: geometry.sectors_per_cluster,
                sectors_per_fat: geometry.sectors_per_fat,
                fat_start_sector: geometry.fat_start_sector,
                data_start_sector: geometry.data_start_sector,
                root_dir_cluster: geometry.root_dir_cluster,
            },
        )
    }

    /// Whether a volume of `bytes_per_sector` bytes to the logical sector
    /// fits a device of `physical` bytes to the sector: the logical sector
    /// is a whole number of physical ones, at least one.
    pub open spec fn fits(physical: u64, bytes_per_sector: u16) -> bool {
        &&& physical > 0
        &&& bytes_per_sector >= physical
        &&& bytes_per_sector as int % physical as int == 0
    }

    /// What mounting gives for the volume that starts at sector `start` and
    /// is described by `bpb`, on a device of `physical` bytes to the sector:
    /// `InvalidData` exactly when the logical sector does not fit the
    /// device's; else a volume with an empty cache, whose table and data
    /// are located from the start of the device.
    pub open spec fn mounted(
        physical: u64,
        start: u32,
        bpb: BiosParameterBlock,
        r: Result<VFat<D>, Error>,
    ) -> bool {
        match r {
            Ok(vfat) => {
                &&& Self::fits(physical, bpb.bytes_per_sec)
                &&& vfat.wf()
                &&& vfat.geometry() == Geometry::of(start, bpb)
                &&& vfat.partition() == (Partition {
                    start: start as u64,
                    sector_size: bpb.bytes_per_sec as u64,
                })
                &&& vfat@ == Map::<u64, Seq<u8>>::empty()
            },
            Err(e) => !Self::fits(physical, bpb.bytes_per_sec) && e == Error::Io(
                IoError::InvalidData,
            ),
        }
    }

    /// What mounting gives when reading the boot record gave `boot` and
    /// reading the parameter block, where it came to that, gave `block`: an
    /// error of either is handed on; a partition table without a FAT32
    /// partition is `Io(NotFound)`; else the first FAT32 partition is
    /// mounted.
    pub open spec fn mounted_from(
        boot: Result<MasterBootRecord, Error>,
        block: Result<BiosParameterBlock, Error>,
        physical: u64,
        r: Result<VFat<D>, Error>,
    ) -> bool {
        match partition_found(boot) {
            Err(e) => r is Err && r->Err_0 == e,
            Ok(start) => match block {
                Err(e) => r is Err && r->Err_0 == e,
                Ok(bpb) => Self::mounted(physical, start, bpb, r),
            },
        }
    }

    /// What mounting gives when the device answered `read` to the read of
    /// the boot record and left `sector` in the buffer, which made `boot`,
    /// and, where a FAT32 partition was found, answered `next` to the read
    /// of its parameter block and left `bytes`, which made `block`.
    pub open spec fn mounted_reading(
        read: Result<usize, IoError>,
        sector: Seq<u8>,
        boot: Result<MasterBootRecord, Error>,
        next: Result<usize, IoError>,
        bytes: Seq<u8>,
        block: Result<BiosParameterBlock, Error>,
        physical: u64,
        r: Result<VFat<D>, Error>,
    ) -> bool {
        &&& MasterBootRecord::read_as(read, sector, boot)
        &&& partition_found(boot) is Ok ==> BiosParameterBlock::read_as(next, bytes, block)
        &&& Self::mounted_from(boot, block, physical, r)
    }

    /// Mounts the volume that starts at sector `start` of `device` and is
    /// described by `bpb`. Table and data are located from the start of the
    /// device: `start` is added to what the parameter block counts from the
    /// start of the partition. The cache starts empty.
    ///
    /// Fails with `InvalidData` exactly when the logical sector does not
    /// fit the device's.
    pub fn mount(device: D, start: u32, bpb: &BiosParameterBlock) -> (r: Result<VFat<D>, Error>)
        ensures
            Self::mounted(device.spec_sector_size(), start, *bpb, r),
            r matches Ok(vfat) ==> vfat.device() == device,
    {
        let physical = device.sector_size();
        let logical: u64 = bpb.bytes_per_sec() as u64;
        if physical == 0 || logical < physical || logical % physical != 0 {
            return Err(Error::Io(IoError::InvalidData));
        }
        let geometry = Geometry::new(start, bpb);
        assert(bpb.num_fats * bpb.sec_per_fat_size <= 255 * 0xFFFF_FFFF) by (nonlinear_arith)
            requires
                bpb.num_fats <= 255,
                bpb.sec_per_fat_size <= 0xFFFF_FFFF,
        ;
        let partition = Partition { start: start as u64, sector_size: logical };
        let cached = CachedDevice::new(device, partition);
        match VFat::new(cached, geometry) {
            Ok(vfat) => Ok(vfat),
            Err(e) => Err(Error::Io(e)),
        }
    }

    /// Mounts the volume that starts at sector `start` of `device`, given
    /// what reading its parameter block gave: an error of the read is
    /// handed on, and a block that was read is mounted as `mount` does.
    pub fn mount_block(device: D, start: u32, block: Result<BiosParameterBlock, Error>) -> (r:
        Result<VFat<D>, Error>)
        ensures
            match block {
                Err(e) => r is Err && r->Err_0 == e,
                Ok(bpb) => Self::mounted(device.spec_sector_size(), start, bpb, r),
            },
            r matches Ok(vfat) ==> vfat.device() == device,
    {
        match block {
            Err(e) => Err(e),
            Ok(bpb) => VFat::mount(device, start, &bpb),
        }
    }

    /// Mounts the first FAT32 partition of `device`: reads the master boot
    /// record, then the parameter block at the partition's first sector.
    ///
    /// Fails with what reading either gives, and with `Io(NotFound)` when
    /// the partition table holds no FAT32 partition. The device decides
    /// what is read: `read` and `sector` stand for its answer to the read
    /// of the boot record and `next` and `bytes` for its answer to the read
    /// of the parameter block, if it came to that; `partition_start` and
    /// `mount_block` say what each answer leads to.
    pub fn from(device: D) -> (r: Result<VFat<D>, Error>)
        ensures
            exists|
                read: Result<usize, IoError>,
                sector: Seq<u8>,
                boot: Result<MasterBootRecord, Error>,
                next: Result<usize, IoError>,
                bytes: Seq<u8>,
                block: Result<BiosParameterBlock, Error>,
                physical: u64,
            |
                {
                    &&& sector.len() == 512
                    &&& bytes.len() == 512
                    &&& #[trigger] Self::mounted_reading(
                        read,
                        sector,
                        boot,
                        next,
                        bytes,
                        block,
                        physical,
                        r,
                    )
                },
            r matches Ok(vfat) ==> vfat.wf() && vfat@ == Map::<u64, Seq<u8>>::empty(),
    {
        let mut device = device;
        let boot = MasterBootRecord::from(&mut device);
        let ghost (read, sector) = choose|read: Result<usize, IoError>, sector: Seq<u8>|
            sector.len() == 512 && #[trigger] MasterBootRecord::read_as(read, sector, boot);
        let start: u32 = match partition_start(boot) {
            Ok(start) => start,
            Err(e) => {
                proof {
                    let r = Err::<VFat<D>, Error>(e);
                    assert(Self::mounted_reading(
                        read,
                        sector,
                        boot,
                        read,
                        sector,
                        Err(e),
                        0,
                        r,
                    ));
                }
                return Err(e);
            },
        };
        let block = BiosParameterBlock::from(&mut device, start as u64);
        let ghost (next, bytes) = choose|next: Result<usize, IoError>, bytes: Seq<u8>|
            bytes.len() == 512 && #[trigger] BiosParameterBlock::read_as(next, bytes, block);
        let ghost physical = device.spec_sector_size();
        let r = Self::mount_block(device, start, block);
        proof {
            assert(Self::mounted_reading(read, sector, boot, next, bytes, block, physical, r));
        }
        r
    }
}

/// Where the volume starts, given what reading the boot record gave: an
/// error of the read stays as it is, and a partition table without a FAT32
/// partition is `Io(NotFound)`.
pub open spec fn partition_found(boot: Result<MasterBootRecord, Error>) -> Result<u32, Error> {
    match boot {
        Err(e) => Err(e),
        Ok(mbr) => match mbr.spec_first_fat_partition() {
            None => Err(Error::Io(IoError::NotFound)),
            Some(start) => Ok(start),
        },
    }
}

/// The first sector of the first FAT32 partition, given what reading the
/// boot record gave.
///
/// An error of the read is handed on; a partition table without a FAT32
/// partition gives `Io(NotFound)`.
pub fn partition_start(boot: Result<MasterBootRecord, Error>) -> (r: Result<u32, Error>)
    ensures
        r == partition_found(boot),
{
    match boot {
        Err(e) => Err(e),
        Ok(mbr) => match mbr.first_fat_partition() {
            None => Err(Error::Io(IoError::NotFound)),
            Some(start) => Ok(start),
        },
    }
}

/// Opening a path twice gives the same entry twice, and the second time
/// reads nothing: once a path has been opened, every sector that it leads
/// through is cached.
pub proof fn lemma_open_twice<D: BlockDevice>(
    first: VFat<D>,
    second: VFat<D>,
    third: VFat<D>,
    path: Seq<u8>,
    r1: Result<Entry, IoError>,
    r2: Result<Entry, IoError>,
)
    requires
        second.opens(&first, path, r1),
        third.opens(&second, path, r2),
        r1 is Ok,
    ensures
        r2 == r1,
        third.untouched(&second),
{
}

} // verus!
