//! Directories: fixed-size records of 32 bytes, each with an 8.3 short name.
//!
//! A record whose first byte is `0x00` ends the directory; one whose first
//! byte is `0xE5` is unused; one with the volume bit set in its attributes
//! is a volume label or part of a long name, and is passed over.

use crate::cluster::Cluster;
use crate::util::{le_u16, le_u32, read_u16, read_u32};
use vstd::prelude::*;

verus! {

/// A file: where its chain starts and how many bytes it holds.
#[derive(Debug, Clone, Copy, PartialEq, Eq, Structural)]
pub struct File {
    pub cluster: Cluster,
    pub size: u32,
}

/// A directory: where its chain starts.
#[derive(Debug, Clone, Copy, PartialEq, Eq, Structural)]
pub struct Dir {
    pub cluster: Cluster,
}

/// What a path names.
#[derive(Debug, Clone, Copy, PartialEq, Eq, Structural)]
pub enum Entry {
    File(File),
    Dir(Dir),
}

/// The size of a directory record in bytes.
pub const RECORD_SIZE: usize = 32;

/// The byte that pads short names.
pub const PAD: u8 = 0x20;

/// The byte that parts the components of a path.
pub const SLASH: u8 = 0x2F;

/// `field` without the padding at its end.
pub open spec fn trimmed(field: Seq<u8>) -> Seq<u8>
    decreases field.len(),
{
    if field.len() > 0 && field.last() == 0x20 {
        trimmed(field.drop_last())
    } else {
        field
    }
}

/// The name that a record stands for: its base, and after a dot its
/// extension if it has one.
pub open spec fn short_name(record: Seq<u8>) -> Seq<u8> {
    let base = trimmed(record.subrange(0, 8));
    let extension = trimmed(record.subrange(8, 11));
    if extension.len() == 0 {
        base
    } else {
        base + seq![0x2Eu8] + extension
    }
}

/// An ASCII letter in upper case; any other byte as it is.
pub open spec fn upper(b: u8) -> u8 {
    if 0x61 <= b <= 0x7A {
        (b - 32) as u8
    } else {
        b
    }
}

/// Whether two names are the same but for the case of their letters.
pub open spec fn same_name(a: Seq<u8>, b: Seq<u8>) -> bool {
    a.len() == b.len() && forall|i: int| 0 <= i < a.len() ==> upper(#[trigger] a[i]) == upper(b[i])
}

/// Whether a record is passed over: it is unused, or a volume label, or
/// part of a long name.
pub open spec fn passed_over(record: Seq<u8>) -> bool {
    record[0] == 0xE5 || (record[11] as int / 8) % 2 == 1
}

/// Whether a record names a directory.
pub open spec fn names_dir(record: Seq<u8>) -> bool {
    (record[11] as int / 16) % 2 == 1
}

/// The cluster that a record points to: 28 bits of its two halves.
pub open spec fn record_cluster(record: Seq<u8>) -> Cluster {
    Cluster(((le_u16(record, 20) as int * 65536 + le_u16(record, 26) as int) % 0x1000_0000) as u32)
}

/// What a record names. A directory record that points below cluster 2
/// stands for the root directory.
pub open spec fn entry_of(record: Seq<u8>, root: Cluster) -> Entry {
    let cluster = record_cluster(record);
    if names_dir(record) {
        Entry::Dir(
            Dir {
                cluster: if cluster.0 < 2 {
                    root
                } else {
                    cluster
                },
            },
        )
    } else {
        Entry::File(File { cluster, size: le_u32(record, 28) })
    }
}

/// The `i`-th record of a directory.
pub open spec fn record(dir: Seq<u8>, i: int) -> Seq<u8> {
    dir.subrange(32 * i, 32 * i + 32)
}

/// What `name` names among the records of `dir` from the `i`-th on: the
/// first record with that name that is not passed over, before the end of
/// the directory.
pub open spec fn find_from(dir: Seq<u8>, name: Seq<u8>, root: Cluster, i: int) -> Option<Entry>
    decreases dir.len() - 32 * i,
{
    if i < 0 || 32 * i + 32 > dir.len() {
        None
    } else if record(dir, i)[0] == 0 {
        None
    } else if !passed_over(record(dir, i)) && same_name(short_name(record(dir, i)), name) {
        Some(entry_of(record(dir, i), root))
    } else {
        find_from(dir, name, root, i + 1)
    }
}

/// What `name` names in the directory `dir`.
pub open spec fn find(dir: Seq<u8>, name: Seq<u8>, root: Cluster) -> Option<Entry> {
    find_from(dir, name, root, 0)
}

/// Upper case of an ASCII letter.
pub fn to_upper(b: u8) -> (u: u8)
    ensures
        u == upper(b),
{
    if 0x61 <= b && b <= 0x7A {
        b - 32
    } else {
        b
    }
}

/// The length of `bytes[from..to]` without the padding at its end.
pub fn trimmed_len(bytes: &[u8], from: usize, to: usize) -> (len: usize)
    requires
        from <= to <= bytes@.len(),
    ensures
        len <= to - from,
        trimmed(bytes@.subrange(from as int, to as int)) == bytes@.subrange(
            from as int,
            from + len,
        ),
{
    let ghost field = bytes@.subrange(from as int, to as int);
    let total = bytes.len();
    let mut len: usize = to - from;
    assert(field.take(len as int) =~= field);
    while len > 0 && bytes[from + len - 1] == PAD
        invariant
            from <= to <= total,
            total == bytes@.len(),
            len <= to - from,
            field == bytes@.subrange(from as int, to as int),
            trimmed(field) == trimmed(field.take(len as int)),
        decreases len,
    {
        assert(field.take(len as int).drop_last() =~= field.take(len - 1));
        len = len - 1;
    }
    assert(field.take(len as int) =~= bytes@.subrange(from as int, from + len));
    len
}

/// Whether the record at `dir[at..at + 32]` has the name `name`, whatever
/// the case of the letters.
pub fn name_matches(dir: &[u8], at: usize, name: &[u8]) -> (b: bool)
    requires
        at + 32 <= dir@.len(),
    ensures
        b == same_name(short_name(dir@.subrange(at as int, at + 32)), name@),
{
    let ghost rec = dir@.subrange(at as int, at + 32);
    let len = dir.len();
    let base_len = trimmed_len(dir, at, at + 8);
    let ext_len = trimmed_len(dir, at + 8, at + 11);
    proof {
        assert(rec.subrange(0, 8) =~= dir@.subrange(at as int, at + 8));
        assert(rec.subrange(8, 11) =~= dir@.subrange(at + 8, at + 11));
    }
    let ghost base = dir@.subrange(at as int, at + base_len);
    let ghost extension = dir@.subrange(at + 8, at + 8 + ext_len);
    let ghost shown = short_name(rec);
    let total = if ext_len == 0 {
        base_len
    } else {
        base_len + 1 + ext_len
    };
    assert(shown.len() == total);
    if name.len() != total {
        return false;
    }
    let mut i: usize = 0;
    while i < total
        invariant
            i <= total,
            total == shown.len(),
            total == name@.len(),
            shown == short_name(dir@.subrange(at as int, at + 32)),
            at + 32 <= len,
            len == dir@.len(),
            base_len <= 8,
            ext_len <= 3,
            total == if ext_len == 0 {
                base_len as int
            } else {
                base_len + 1 + ext_len
            },
            base == dir@.subrange(at as int, at + base_len),
            extension == dir@.subrange(at + 8, at + 8 + ext_len),
            shown == if ext_len == 0 {
                base
            } else {
                base + seq![0x2Eu8] + extension
            },
            forall|j: int| 0 <= j < i ==> upper(#[trigger] shown[j]) == upper(name@[j]),
        decreases total - i,
    {
        let have: u8 = if i < base_len {
            dir[at + i]
        } else if i == base_len {
            0x2E
        } else {
            dir[at + 8 + (i - base_len - 1)]
        };
        assert(have == shown[i as int]);
        if to_upper(have) != to_upper(name[i]) {
            assert(upper(shown[i as int]) != upper(name@[i as int]));
            return false;
        }
        i += 1;
    }
    true
}

/// Decodes what the record at `dir[at..at + 32]` names.
pub fn read_entry(dir: &[u8], at: usize, root: Cluster) -> (e: Entry)
    requires
        at + 32 <= dir@.len(),
    ensures
        e == entry_of(dir@.subrange(at as int, at + 32), root),
{
    let ghost rec = dir@.subrange(at as int, at + 32);
    let len = dir.len();
    let high: u32 = read_u16(dir, at + 20) as u32;
    let low: u32 = read_u16(dir, at + 26) as u32;
    let size: u32 = read_u32(dir, at + 28);
    proof {
        assert(le_u16(rec, 20) == le_u16(dir@, at + 20));
        assert(le_u16(rec, 26) == le_u16(dir@, at + 26));
        assert(le_u32(rec, 28) == le_u32(dir@, at + 28));
        assert(rec[11] == dir@[at + 11]);
    }
    let cluster = Cluster::from(high * 65536 + low);
    if (dir[at + 11] / 16) % 2 == 1 {
        Entry::Dir(
            Dir {
                cluster: if cluster.is_valid() {
                    cluster
                } else {
                    root
                },
            },
        )
    } else {
        Entry::File(File { cluster, size })
    }
}

/// Looks `name` up in the bytes of a directory: the first record with
/// that name wins, and the scan stops at the record that ends the
/// directory. Names are compared without regard to case.
pub fn find_entry(dir: &[u8], name: &[u8], root: Cluster) -> (found: Option<Entry>)
    ensures
        found == find(dir@, name@, root),
{
    let mut i: usize = 0;
    let len = dir.len();
    while len - i >= RECORD_SIZE
        invariant
            len == dir@.len(),
            i % 32 == 0,
            i <= len,
            find(dir@, name@, root) == find_from(dir@, name@, root, i as int / 32),
        decreases len - i,
    {
        let ghost k = i as int / 32;
        let ghost rec = record(dir@, k);
        proof {
            assert(32 * k == i);
            assert(rec =~= dir@.subrange(i as int, i + 32));
            assert(rec[0] == dir@[i as int]);
            assert(rec[11] == dir@[i + 11]);
        }
        if dir[i] == 0 {
            return None;
        }
        if dir[i] != 0xE5 && (dir[i + 11] / 8) % 2 != 1 && name_matches(dir, i, name) {
            return Some(read_entry(dir, i, root));
        }
        i = i + RECORD_SIZE;
        assert((i as int) / 32 == k + 1);
    }
    None
}

/// The length of the name that `path` begins with: the bytes before its
/// first slash.
pub open spec fn name_len(path: Seq<u8>) -> int
    decreases path.len(),
{
    if path.len() == 0 || path[0] == 0x2F {
        0
    } else {
        1 + name_len(path.skip(1))
    }
}

/// A path that begins with a name begins with at least one byte of it.
pub proof fn lemma_name_len_bounds(path: Seq<u8>)
    ensures
        0 <= name_len(path) <= path.len(),
        path.len() > 0 && path[0] != 0x2F ==> name_len(path) >= 1,
    decreases path.len(),
{
    if path.len() > 0 && path[0] != 0x2F {
        lemma_name_len_bounds(path.skip(1));
    }
}

/// The end of the name that begins at `path[from]`: the position of the
/// next slash, or the end of the path.
pub fn name_end(path: &[u8], from: usize) -> (to: usize)
    requires
        from <= path@.len(),
    ensures
        from <= to <= path@.len(),
        to - from == name_len(path@.skip(from as int)),
{
    let len = path.len();
    let mut to: usize = from;
    while to < len && path[to] != SLASH
        invariant
            len == path@.len(),
            from <= to <= len,
            name_len(path@.skip(from as int)) == (to - from) + name_len(path@.skip(to as int)),
        decreases len - to,
    {
        assert(path@.skip(to as int).skip(1) =~= path@.skip(to + 1));
        to += 1;
    }
    to
}

} // verus!
