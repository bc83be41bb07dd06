//! Paths: names parted by slashes, resolved from the root directory down.
//!
//! What a path names is stated over the cached sectors, like the reads it
//! is made of: `None` where a sector that the answer needs is not cached.

use crate::dir::{find, lemma_name_len_bounds, name_len, Dir, Entry};
use crate::geometry::{
    chain_bytes, lemma_chain_bytes_grows, lemma_submap_chain, Geometry, Outcome, Sectors,
};
use crate::traits::IoError;
use vstd::prelude::*;

verus! {

/// The root directory of a volume.
pub open spec fn root_of(g: Geometry) -> Entry {
    Entry::Dir(Dir { cluster: g.root_dir_cluster })
}

/// What `name` names inside `cur`: `NotADirectory` if `cur` is a file,
/// `NotFound` if the directory holds no such name.
pub open spec fn lookup(m: Sectors, g: Geometry, cur: Entry, name: Seq<u8>) -> Outcome<Entry> {
    match cur {
        Entry::File(_) => Some(Err(IoError::NotADirectory)),
        Entry::Dir(dir) => match chain_bytes(m, g, dir.cluster, g.chain_limit()) {
            Some(Ok(bytes)) => match find(bytes, name, g.root_dir_cluster) {
                Some(entry) => Some(Ok(entry)),
                None => Some(Err(IoError::NotFound)),
            },
            Some(Err(e)) => Some(Err(e)),
            None => None,
        },
    }
}

/// What `path` names, seen from `cur`. Slashes part the names; slashes at
/// the front, at the end or in a row count once. The empty path names
/// `cur` itself.
pub open spec fn resolve(m: Sectors, g: Geometry, path: Seq<u8>, cur: Entry) -> Outcome<Entry>
    decreases path.len(),
{
    if path.len() == 0 {
        Some(Ok(cur))
    } else if path[0] == 0x2F {
        resolve(m, g, path.skip(1), cur)
    } else {
        let n = name_len(path);
        proof {
            lemma_name_len_bounds(path);
        }
        match lookup(m, g, cur, path.take(n)) {
            Some(Ok(next)) => resolve(m, g, path.skip(n), next),
            other => other,
        }
    }
}

/// Whether a walk along `path` from `start` has come to `cur` with `rest`
/// of the path to go: whatever more gets cached, `path` names from `start`
/// what `rest` names from `cur`.
pub open spec fn resolving(
    m: Sectors,
    g: Geometry,
    path: Seq<u8>,
    start: Entry,
    rest: Seq<u8>,
    cur: Entry,
) -> bool {
    forall|larger: Sectors| #[trigger]
        m.submap_of(larger) ==> resolve(larger, g, path, start) == resolve(larger, g, rest, cur)
}

/// What a walk says of the path once the cached sectors determine the
/// rest of it.
pub proof fn lemma_resolving_here(
    m: Sectors,
    larger: Sectors,
    g: Geometry,
    path: Seq<u8>,
    start: Entry,
    rest: Seq<u8>,
    cur: Entry,
)
    requires
        resolving(m, g, path, start, rest, cur),
        m.submap_of(larger),
    ensures
        resolve(larger, g, path, start) == resolve(larger, g, rest, cur),
{
}

/// A walk passes over a slash.
pub proof fn lemma_resolving_slash(
    m: Sectors,
    g: Geometry,
    path: Seq<u8>,
    start: Entry,
    rest: Seq<u8>,
    cur: Entry,
)
    requires
        resolving(m, g, path, start, rest, cur),
        rest.len() > 0,
        rest[0] == 0x2F,
    ensures
        resolving(m, g, path, start, rest.skip(1), cur),
{
    assert forall|larger: Sectors| #[trigger] m.submap_of(larger) implies resolve(
        larger,
        g,
        path,
        start,
    ) == resolve(larger, g, rest.skip(1), cur) by {
        lemma_resolving_here(m, larger, g, path, start, rest, cur);
    }
}

/// A walk keeps its place when more gets cached.
pub proof fn lemma_resolving_grows(
    m: Sectors,
    grown: Sectors,
    g: Geometry,
    path: Seq<u8>,
    start: Entry,
    rest: Seq<u8>,
    cur: Entry,
)
    requires
        resolving(m, g, path, start, rest, cur),
        m.submap_of(grown),
    ensures
        resolving(grown, g, path, start, rest, cur),
{
    assert forall|larger: Sectors| #[trigger] grown.submap_of(larger) implies resolve(
        larger,
        g,
        path,
        start,
    ) == resolve(larger, g, rest, cur) by {
        lemma_submap_chain(m, grown, larger);
        lemma_resolving_here(m, larger, g, path, start, rest, cur);
    }
}

/// What a name names does not change when more gets cached.
pub proof fn lemma_lookup_grows(m: Sectors, larger: Sectors, g: Geometry, cur: Entry, name: Seq<u8>)
    requires
        g.wf(),
        m.submap_of(larger),
        lookup(m, g, cur, name) is Some,
    ensures
        lookup(larger, g, cur, name) == lookup(m, g, cur, name),
{
    match cur {
        Entry::Dir(dir) => {
            lemma_chain_bytes_grows(m, larger, g, dir.cluster, g.chain_limit());
        },
        _ => {},
    }
}

/// A walk moves on: with the name at the front of `rest` found in `cur`,
/// it stands at what the name names.
pub proof fn lemma_resolving_step(
    m: Sectors,
    g: Geometry,
    path: Seq<u8>,
    start: Entry,
    rest: Seq<u8>,
    cur: Entry,
    next: Entry,
)
    requires
        g.wf(),
        resolving(m, g, path, start, rest, cur),
        rest.len() > 0,
        rest[0] != 0x2F,
        lookup(m, g, cur, rest.take(name_len(rest))) == Some(Ok::<Entry, IoError>(next)),
    ensures
        resolving(m, g, path, start, rest.skip(name_len(rest)), next),
{
    assert forall|larger: Sectors| #[trigger] m.submap_of(larger) implies resolve(
        larger,
        g,
        path,
        start,
    ) == resolve(larger, g, rest.skip(name_len(rest)), next) by {
        lemma_resolving_here(m, larger, g, path, start, rest, cur);
        lemma_lookup_grows(m, larger, g, cur, rest.take(name_len(rest)));
    }
}

/// What the rest of a path names is determined only if what its first
/// name names is.
pub proof fn lemma_resolve_needs_lookup(m: Sectors, g: Geometry, rest: Seq<u8>, cur: Entry)
    requires
        rest.len() > 0,
        rest[0] != 0x2F,
        resolve(m, g, rest, cur) is Some,
    ensures
        lookup(m, g, cur, rest.take(name_len(rest))) is Some,
{
}

/// A walk ends where a name cannot be looked up: the path names what the
/// lookup gives, an error.
pub proof fn lemma_resolving_stops(
    m: Sectors,
    g: Geometry,
    path: Seq<u8>,
    start: Entry,
    rest: Seq<u8>,
    cur: Entry,
)
    requires
        resolving(m, g, path, start, rest, cur),
        rest.len() > 0,
        rest[0] != 0x2F,
        !(lookup(m, g, cur, rest.take(name_len(rest))) matches Some(Ok(_))),
    ensures
        resolve(m, g, path, start) == lookup(m, g, cur, rest.take(name_len(rest))),
{
    lemma_resolving_here(m, m, g, path, start, rest, cur);
}

} // verus!
