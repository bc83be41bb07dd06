//! The geometry of a FAT32 volume, and what a set of cached sectors says
//! of its tables, clusters and chains.
//!
//! Every function here reads a map from logical sector numbers to bytes.
//! Its result is `None` where the map lacks a sector that the answer
//! needs, and otherwise the answer: a value, or the error that the bytes
//! themselves call for.

use crate::cluster::Cluster;
use crate::ebpb::BiosParameterBlock;
use crate::fat::{FatEntry, Status};
use crate::traits::IoError;
use crate::util::le_u32;
use vstd::prelude::*;

verus! {

/// Cached sectors: logical sector number to bytes.
pub type Sectors = Map<u64, Seq<u8>>;

/// An answer that the cached sectors may or may not determine.
pub type Outcome<T> = Option<Result<T, IoError>>;

/// Where the parts of a volume lie, in logical sectors of the device.
#[derive(Debug, Clone, Copy, PartialEq, Eq, Structural)]
pub struct Geometry {
    pub bytes_per_sector: u16,
    pub sectors_per_cluster: u8,
    pub sectors_per_fat: u32,
    /// The first sector of the file allocation table.
    pub fat_start_sector: u64,
    /// The first sector of cluster 2.
    pub data_start_sector: u64,
    pub root_dir_cluster: Cluster,
}

/// The highest sector at which a table or a data region may start.
pub const MAX_START: u64 = 0x4000_0000_0000_0000;

/// The number of cluster numbers: they have 28 bits.
pub const MAX_CHAIN: u64 = 0x1000_0000;

impl Geometry {
    /// A sector holds at least one byte, and the table and the data start
    /// low enough for every sector number of the volume to fit in 64 bits.
    pub open spec fn wf(&self) -> bool {
        &&& self.bytes_per_sector > 0
        &&& self.fat_start_sector <= MAX_START
        &&& self.data_start_sector <= MAX_START
    }

    /// The geometry of the volume that starts at sector `start` and is
    /// described by `bpb`: the table follows the reserved sectors, the
    /// data follows the tables.
    pub open spec fn of(start: u32, bpb: BiosParameterBlock) -> Geometry {
        Geometry {
            bytes_per_sector: bpb.bytes_per_sec,
            sectors_per_cluster: bpb.sec_per_clus,
            sectors_per_fat: bpb.sec_per_fat_size,
            fat_start_sector: (start + bpb.spec_fat_start()) as u64,
            data_start_sector: (start + bpb.spec_data_start_sec()) as u64,
            root_dir_cluster: Cluster((bpb.clus_num_root % 0x1000_0000) as u32),
        }
    }

    /// The number of bytes in a cluster.
    pub open spec fn cluster_size(&self) -> int {
        self.bytes_per_sector * self.sectors_per_cluster
    }

    /// The sector that holds the table entry of cluster `c`: entries are
    /// four bytes each.
    pub open spec fn fat_sector(&self, c: Cluster) -> int {
        self.fat_start_sector + (c.0 * 4) / (self.bytes_per_sector as int)
    }

    /// The offset of the table entry of cluster `c` in its sector.
    pub open spec fn fat_offset(&self, c: Cluster) -> int {
        (c.0 * 4) % (self.bytes_per_sector as int)
    }

    /// The first sector of data cluster `c`.
    pub open spec fn cluster_sector(&self, c: Cluster) -> int {
        self.data_start_sector + (c.0 - 2) * self.sectors_per_cluster
    }

    /// The number of clusters that a chain can have: as many as there are
    /// cluster numbers. A chain with more comes by a cluster twice, and so
    /// has no end.
    pub open spec fn chain_limit(&self) -> nat {
        MAX_CHAIN as nat
    }

    /// The number of bytes that a read at `offset` into a cluster copies to
    /// a buffer of `len` bytes: what is left of the cluster, or `len`.
    pub open spec fn read_len(&self, offset: int, len: int) -> int {
        if offset >= self.cluster_size() {
            0
        } else if len <= self.cluster_size() - offset {
            len
        } else {
            self.cluster_size() - offset
        }
    }

    /// Computes the geometry of the volume that starts at sector `start`.
    pub fn new(start: u32, bpb: &BiosParameterBlock) -> (g: Geometry)
        ensures
            g == Geometry::of(start, *bpb),
            g.fat_start_sector == start + bpb.rsvd_sec_count,
            g.data_start_sector == g.fat_start_sector + bpb.num_fats * bpb.sec_per_fat_size,
    {
        let start: u64 = start as u64;
        let data_start = bpb.data_start_sec();
        assert(data_start <= 0xFFFF + 255 * 0xFFFF_FFFF) by (nonlinear_arith)
            requires
                data_start == bpb.rsvd_sec_count + bpb.num_fats * bpb.sec_per_fat_size,
                bpb.rsvd_sec_count <= 0xFFFF,
                bpb.num_fats <= 255,
                bpb.sec_per_fat_size <= 0xFFFF_FFFF,
        ;
        Geometry {
            bytes_per_sector: bpb.bytes_per_sec(),
            sectors_per_cluster: bpb.sec_per_clus(),
            sectors_per_fat: bpb.sec_per_fat(),
            fat_start_sector: start + bpb.fat_start(),
            data_start_sector: start + data_start,
            root_dir_cluster: Cluster::from(bpb.root_clus()),
        }
    }
}

/// What the cached sectors say of one sector that a read needs: nothing
/// if it is not cached, `InvalidData` if it does not hold `len` bytes.
pub open spec fn sector_ready(m: Sectors, sector: int, len: int) -> Outcome<()> {
    if !m.contains_key(sector as u64) {
        None
    } else if m[sector as u64].len() != len {
        Some(Err(IoError::InvalidData))
    } else {
        Some(Ok(()))
    }
}

/// What the cached sectors say of the sectors `first + from .. first + to`,
/// looked at in order: the first one that is not ready decides.
pub open spec fn sectors_ready(m: Sectors, len: int, first: int, from: int, to: int) -> Outcome<()>
    decreases to - from,
{
    if to <= from {
        Some(Ok(()))
    } else {
        match sectors_ready(m, len, first, from, to - 1) {
            Some(Ok(_)) => sector_ready(m, first + to - 1, len),
            other => other,
        }
    }
}

/// The table entry of cluster `c`, as the cached sectors hold it.
pub open spec fn fat_entry_at(m: Sectors, g: Geometry, c: Cluster) -> Outcome<FatEntry> {
    let sector = g.fat_sector(c);
    let offset = g.fat_offset(c);
    if !m.contains_key(sector as u64) {
        None
    } else if offset + 4 > m[sector as u64].len() {
        Some(Err(IoError::InvalidData))
    } else {
        Some(Ok(FatEntry(le_u32(m[sector as u64], offset))))
    }
}

/// The byte at position `pos` of the cluster whose first sector is
/// `first`.
pub open spec fn cluster_byte(m: Sectors, g: Geometry, first: int, pos: int) -> u8 {
    m[(first + pos / (g.bytes_per_sector as int)) as u64][pos % (g.bytes_per_sector as int)]
}

/// What a read of cluster `c` at `offset` into a buffer of `len` bytes
/// gives: the bytes from `offset` on, as many as `read_len` says.
pub open spec fn cluster_read(m: Sectors, g: Geometry, c: Cluster, offset: int, len: int) -> Outcome<
    Seq<u8>,
> {
    let n = g.read_len(offset, len);
    let first = g.cluster_sector(c);
    let size = g.bytes_per_sector as int;
    if c.0 < 2 {
        Some(Err(IoError::InvalidInput))
    } else if n <= 0 {
        Some(Ok(Seq::empty()))
    } else {
        match sectors_ready(m, size, first, offset / size, (offset + n - 1) / size + 1) {
            Some(Ok(_)) => Some(Ok(Seq::new(n as nat, |i: int| cluster_byte(m, g, first, offset + i)))),
            Some(Err(e)) => Some(Err(e)),
            None => None,
        }
    }
}

/// The whole of cluster `c`.
pub open spec fn cluster_bytes(m: Sectors, g: Geometry, c: Cluster) -> Outcome<Seq<u8>> {
    cluster_read(m, g, c, 0, g.cluster_size())
}

/// `head` followed by what `rest` gives.
pub open spec fn prepend(head: Seq<u8>, rest: Outcome<Seq<u8>>) -> Outcome<Seq<u8>> {
    match rest {
        Some(Ok(tail)) => Some(Ok(head + tail)),
        other => other,
    }
}

/// The bytes of the chain that starts at cluster `c`: the cluster's own,
/// then those of the chain that its table entry points to. An entry that
/// marks the end of the chain ends it; a free, reserved or bad one, or a
/// chain of more than `fuel` clusters, is `CorruptChain`.
pub open spec fn chain_bytes(m: Sectors, g: Geometry, c: Cluster, fuel: nat) -> Outcome<Seq<u8>>
    decreases fuel,
{
    if fuel == 0 {
        Some(Err(IoError::CorruptChain))
    } else {
        match cluster_bytes(m, g, c) {
            Some(Ok(bytes)) => match fat_entry_at(m, g, c) {
                Some(Ok(entry)) => match entry.spec_status() {
                    Status::Data(next) => prepend(bytes, chain_bytes(m, g, next, (fuel - 1) as nat)),
                    Status::Eoc(_) => Some(Ok(bytes)),
                    _ => Some(Err(IoError::CorruptChain)),
                },
                Some(Err(e)) => Some(Err(e)),
                None => None,
            },
            Some(Err(e)) => Some(Err(e)),
            None => None,
        }
    }
}

/// What stays cached stays cached.
pub proof fn lemma_submap_chain(a: Sectors, b: Sectors, c: Sectors)
    requires
        a.submap_of(b),
        b.submap_of(c),
    ensures
        a.submap_of(c),
{
    vstd::map_lib::lemma_submap_of_trans(a, b, c);
}

/// An answer that a set of sectors determines is the same with more
/// sectors cached.
pub proof fn lemma_sectors_ready_grows(
    m: Sectors,
    larger: Sectors,
    len: int,
    first: int,
    from: int,
    to: int,
)
    requires
        m.submap_of(larger),
        sectors_ready(m, len, first, from, to) is Some,
    ensures
        sectors_ready(larger, len, first, from, to) == sectors_ready(m, len, first, from, to),
    decreases to - from,
{
    if to > from {
        lemma_sectors_ready_grows(m, larger, len, first, from, to - 1);
        if sectors_ready(m, len, first, from, to - 1) == Some(Ok::<(), IoError>(())) {
            let sector = first + to - 1;
            if m.dom().contains(sector as u64) {
                assert(larger.dom().contains(sector as u64));
            }
        }
    }
}

/// Sectors that are ready are cached, each with `len` bytes.
pub proof fn lemma_sectors_ready_each(m: Sectors, len: int, first: int, from: int, to: int, k: int)
    requires
        sectors_ready(m, len, first, from, to) == Some(Ok::<(), IoError>(())),
        from <= k < to,
    ensures
        m.contains_key((first + k) as u64),
        m[(first + k) as u64].len() == len,
    decreases to - from,
{
    if k < to - 1 {
        lemma_sectors_ready_each(m, len, first, from, to - 1, k);
    }
}

/// A table entry that the cached sectors determine is the same with more
/// sectors cached.
pub proof fn lemma_fat_entry_grows(m: Sectors, larger: Sectors, g: Geometry, c: Cluster)
    requires
        m.submap_of(larger),
        fat_entry_at(m, g, c) is Some,
    ensures
        fat_entry_at(larger, g, c) == fat_entry_at(m, g, c),
{
    assert(larger.dom().contains(g.fat_sector(c) as u64));
}

/// What a read of a cluster gives, once the cached sectors determine it, is
/// the same with more sectors cached.
pub proof fn lemma_cluster_read_grows(
    m: Sectors,
    larger: Sectors,
    g: Geometry,
    c: Cluster,
    offset: int,
    len: int,
)
    requires
        g.wf(),
        0 <= offset,
        m.submap_of(larger),
        cluster_read(m, g, c, offset, len) is Some,
    ensures
        cluster_read(larger, g, c, offset, len) == cluster_read(m, g, c, offset, len),
{
    let n = g.read_len(offset, len);
    let first = g.cluster_sector(c);
    let size = g.bytes_per_sector as int;
    if c.0 >= 2 && n > 0 {
        let from = offset / size;
        let to = (offset + n - 1) / size + 1;
        lemma_sectors_ready_grows(m, larger, size, first, from, to);
        if sectors_ready(m, size, first, from, to) == Some(Ok::<(), IoError>(())) {
            let a = Seq::new(n as nat, |i: int| cluster_byte(m, g, first, offset + i));
            let b = Seq::new(n as nat, |i: int| cluster_byte(larger, g, first, offset + i));
            assert forall|i: int| 0 <= i < n implies a[i] == b[i] by {
                let k = (offset + i) / size;
                lemma_position_sector(offset, n, size, i);
                lemma_sectors_ready_each(m, size, first, from, to, k);
                assert(larger.dom().contains((first + k) as u64));
            }
            assert(a =~= b);
        }
    }
}

/// Once a sector in the row is not ready, looking at more sectors changes
/// nothing.
pub proof fn lemma_sectors_ready_sticks(
    m: Sectors,
    len: int,
    first: int,
    from: int,
    to: int,
    further: int,
)
    requires
        to <= further,
        sectors_ready(m, len, first, from, to) != Some(Ok::<(), IoError>(())),
    ensures
        sectors_ready(m, len, first, from, further) == sectors_ready(m, len, first, from, to),
    decreases further - to,
{
    if to < further {
        lemma_sectors_ready_sticks(m, len, first, from, to, further - 1);
    }
}

/// A position is in the sector that its quotient by the sector size names.
pub proof fn lemma_sector_of(pos: int, size: int, k: int)
    requires
        0 < size,
        k * size <= pos < k * size + size,
    ensures
        pos / size == k,
        pos % size == pos - k * size,
{
    vstd::arithmetic::div_mod::lemma_fundamental_div_mod_converse(pos, size, k, pos - k * size);
}

/// The sector of a position between `offset` and `offset + n` lies
/// between the sectors of the two ends.
pub proof fn lemma_position_sector(offset: int, n: int, size: int, i: int)
    requires
        0 <= offset,
        0 < size,
        0 <= i < n,
    ensures
        offset / size <= (offset + i) / size <= (offset + n - 1) / size,
        0 <= offset / size,
{
    vstd::arithmetic::div_mod::lemma_div_is_ordered(offset, offset + i, size);
    vstd::arithmetic::div_mod::lemma_div_is_ordered(offset + i, offset + n - 1, size);
    vstd::arithmetic::div_mod::lemma_div_pos_is_pos(offset, size);
}

/// The bytes of a chain, once the cached sectors determine them, are the
/// same with more sectors cached.
pub proof fn lemma_chain_bytes_grows(
    m: Sectors,
    larger: Sectors,
    g: Geometry,
    c: Cluster,
    fuel: nat,
)
    requires
        g.wf(),
        m.submap_of(larger),
        chain_bytes(m, g, c, fuel) is Some,
    ensures
        chain_bytes(larger, g, c, fuel) == chain_bytes(m, g, c, fuel),
    decreases fuel,
{
    if fuel > 0 {
        lemma_cluster_read_grows(m, larger, g, c, 0, g.cluster_size());
        match cluster_bytes(m, g, c) {
            Some(Ok(bytes)) => {
                lemma_fat_entry_grows(m, larger, g, c);
                match fat_entry_at(m, g, c) {
                    Some(Ok(entry)) => match entry.spec_status() {
                        Status::Data(next) => {
                            lemma_chain_bytes_grows(m, larger, g, next, (fuel - 1) as nat);
                        },
                        _ => {},
                    },
                    _ => {},
                }
            },
            _ => {},
        }
    }
}

/// Whether a walk along the chain from `start` has come to cluster `cur`
/// with the bytes `acc` read and `fuel` clusters to go: whatever more
/// gets cached, the chain's bytes are `acc` followed by those of the
/// chain from `cur`.
pub open spec fn chain_from(
    m: Sectors,
    g: Geometry,
    start: Cluster,
    limit: nat,
    acc: Seq<u8>,
    cur: Cluster,
    fuel: nat,
) -> bool {
    forall|larger: Sectors| #[trigger]
        m.submap_of(larger) ==> chain_bytes(larger, g, start, limit) == prepend(
            acc,
            chain_bytes(larger, g, cur, fuel),
        )
}

/// A walk begins at its start with nothing read.
pub proof fn lemma_chain_start(m: Sectors, g: Geometry, start: Cluster, limit: nat)
    ensures
        chain_from(m, g, start, limit, Seq::empty(), start, limit),
{
    assert forall|larger: Sectors| #[trigger] m.submap_of(larger) implies chain_bytes(
        larger,
        g,
        start,
        limit,
    ) == prepend(Seq::empty(), chain_bytes(larger, g, start, limit)) by {
        match chain_bytes(larger, g, start, limit) {
            Some(Ok(tail)) => {
                assert(Seq::<u8>::empty() + tail =~= tail);
            },
            _ => {},
        }
    }
}

/// What a walk says of the chain once the cached sectors determine the
/// rest of it.
pub proof fn lemma_chain_here(
    m: Sectors,
    larger: Sectors,
    g: Geometry,
    start: Cluster,
    limit: nat,
    acc: Seq<u8>,
    cur: Cluster,
    fuel: nat,
)
    requires
        chain_from(m, g, start, limit, acc, cur, fuel),
        m.submap_of(larger),
    ensures
        chain_bytes(larger, g, start, limit) == prepend(acc, chain_bytes(larger, g, cur, fuel)),
{
}

/// A walk moves on: with the cluster at `cur` read and its table entry
/// pointing to `next`, it stands at `next` with the cluster's bytes added.
pub proof fn lemma_chain_step(
    m: Sectors,
    grown: Sectors,
    g: Geometry,
    start: Cluster,
    limit: nat,
    acc: Seq<u8>,
    cur: Cluster,
    fuel: nat,
    bytes: Seq<u8>,
    next: Cluster,
)
    requires
        g.wf(),
        fuel > 0,
        chain_from(m, g, start, limit, acc, cur, fuel),
        m.submap_of(grown),
        cluster_bytes(grown, g, cur) == Some(Ok::<Seq<u8>, IoError>(bytes)),
        fat_entry_at(grown, g, cur) is Some,
        fat_entry_at(grown, g, cur)->0 is Ok,
        fat_entry_at(grown, g, cur)->0->Ok_0.spec_status() == Status::Data(next),
    ensures
        chain_from(grown, g, start, limit, acc + bytes, next, (fuel - 1) as nat),
{
    assert forall|larger: Sectors| #[trigger] grown.submap_of(larger) implies chain_bytes(
        larger,
        g,
        start,
        limit,
    ) == prepend(acc + bytes, chain_bytes(larger, g, next, (fuel - 1) as nat)) by {
        lemma_submap_chain(m, grown, larger);
        lemma_chain_here(m, larger, g, start, limit, acc, cur, fuel);
        lemma_cluster_read_grows(grown, larger, g, cur, 0, g.cluster_size());
        lemma_fat_entry_grows(grown, larger, g, cur);
        match chain_bytes(larger, g, next, (fuel - 1) as nat) {
            Some(Ok(tail)) => {
                assert(acc + (bytes + tail) =~= (acc + bytes) + tail);
            },
            _ => {},
        }
    }
}

/// Where the chain goes on from cluster `c`: the cluster that its table
/// entry points to, if the cached sectors hold the cluster and the entry.
pub open spec fn next_in_chain(m: Sectors, g: Geometry, c: Cluster) -> Option<Cluster> {
    match (cluster_bytes(m, g, c), fat_entry_at(m, g, c)) {
        (Some(Ok(_)), Some(Ok(entry))) => match entry.spec_status() {
            Status::Data(next) => Some(next),
            _ => None,
        },
        _ => None,
    }
}

/// Whether the chain leads from cluster `from` to cluster `to` in `steps`
/// steps.
pub open spec fn leads(m: Sectors, g: Geometry, from: Cluster, steps: nat, to: Cluster) -> bool
    decreases steps,
{
    if steps == 0 {
        from == to
    } else {
        match next_in_chain(m, g, from) {
            Some(next) => leads(m, g, next, (steps - 1) as nat, to),
            None => false,
        }
    }
}

/// Where a chain leads, it leads with more sectors cached.
pub proof fn lemma_leads_grows(
    m: Sectors,
    larger: Sectors,
    g: Geometry,
    from: Cluster,
    steps: nat,
    to: Cluster,
)
    requires
        g.wf(),
        m.submap_of(larger),
        leads(m, g, from, steps, to),
    ensures
        leads(larger, g, from, steps, to),
    decreases steps,
{
    if steps > 0 {
        lemma_cluster_read_grows(m, larger, g, from, 0, g.cluster_size());
        lemma_fat_entry_grows(m, larger, g, from);
        lemma_leads_grows(m, larger, g, next_in_chain(m, g, from)->0, (steps - 1) as nat, to);
    }
}

/// A chain that leads to a cluster leads one step further to the cluster
/// that comes next.
pub proof fn lemma_leads_on(
    m: Sectors,
    g: Geometry,
    from: Cluster,
    steps: nat,
    to: Cluster,
    next: Cluster,
)
    requires
        leads(m, g, from, steps, to),
        next_in_chain(m, g, to) == Some(next),
    ensures
        leads(m, g, from, steps + 1, next),
    decreases steps,
{
    if steps > 0 {
        lemma_leads_on(m, g, next_in_chain(m, g, from)->0, (steps - 1) as nat, to, next);
    } else {
        assert(leads(m, g, next, 0, next));
    }
}

/// A chain that has no end from `to` has none from a cluster that leads
/// to it, nor has one that is cut off before it comes to `to`.
pub proof fn lemma_leads_to_no_end(
    m: Sectors,
    g: Geometry,
    from: Cluster,
    steps: nat,
    to: Cluster,
    fuel: nat,
)
    requires
        leads(m, g, from, steps, to),
        fuel < steps || chain_bytes(m, g, to, (fuel - steps) as nat) == Some(
            Err::<Seq<u8>, IoError>(IoError::CorruptChain),
        ),
    ensures
        chain_bytes(m, g, from, fuel) == Some(Err::<Seq<u8>, IoError>(IoError::CorruptChain)),
    decreases steps,
{
    if steps > 0 && fuel > 0 {
        let next = next_in_chain(m, g, from)->0;
        lemma_leads_to_no_end(m, g, next, (steps - 1) as nat, to, (fuel - 1) as nat);
    }
}

/// A chain that leads back to where it began has no end, however many
/// clusters are read.
pub proof fn lemma_circle_has_no_end(m: Sectors, g: Geometry, c: Cluster, period: nat, fuel: nat)
    requires
        period >= 1,
        leads(m, g, c, period, c),
    ensures
        chain_bytes(m, g, c, fuel) == Some(Err::<Seq<u8>, IoError>(IoError::CorruptChain)),
    decreases fuel,
{
    if fuel >= period {
        lemma_circle_has_no_end(m, g, c, period, (fuel - period) as nat);
    }
    lemma_leads_to_no_end(m, g, c, period, c, fuel);
}

} // verus!
