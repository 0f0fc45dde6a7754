//! The cached tops of the Merkle trees and their roots, as they are stored in files.
use crate::bytes::{read_hash, read_le16, read_le32, Hash256, HASH_BYTES};
use crate::kinds::{Level, LevelParams};
use vstd::prelude::*;

#[allow(unused_imports)]
use crate::bytes::{hash_views, le16, le32};

verus! {

/// The levels of one tree from a certain height on, up to and with its root.
pub struct TreeTop {
    /// Height of the lowest cached level.
    pub cache_from: usize,
    /// Children per node.
    pub arity: usize,
    /// The nodes of each cached level, the lowest first.
    pub levels: Vec<Vec<Hash256>>,
}

/// What a `TreeTop` holds.
#[verifier::ext_equal]
pub struct TreeTopView {
    pub cache_from: nat,
    pub arity: nat,
    pub levels: Seq<Seq<Seq<u8>>>,
}

/// The nodes of each level.
pub open spec fn level_views(levels: Seq<Vec<Hash256>>) -> Seq<Seq<Seq<u8>>> {
    levels.map_values(|l: Vec<Hash256>| hash_views(l@))
}

impl View for TreeTop {
    type V = TreeTopView;

    open spec fn view(&self) -> TreeTopView {
        TreeTopView {
            cache_from: self.cache_from as nat,
            arity: self.arity as nat,
            levels: level_views(self.levels@),
        }
    }
}

/// What each of `tops` holds.
pub open spec fn top_views(tops: Seq<TreeTop>) -> Seq<TreeTopView> {
    tops.map_values(|t: TreeTop| t@)
}

/// Why a file of tree tops cannot be read.
#[derive(Clone, Copy, Debug, PartialEq, Eq, Structural)]
pub enum TreeTopError {
    /// The file ends before the number of trees does.
    TooShort,
    /// The file ends within the first part of a tree.
    TruncatedRecord,
    /// The file ends before the number of nodes of a level does.
    TruncatedLevel,
    /// The file ends before the nodes of a level do.
    TruncatedHashes,
    /// So many bytes follow the last tree.
    TrailingBytes(usize),
}

/// The `n` hashes in `data` from `off` on.
pub open spec fn hashes_at(data: Seq<u8>, off: int, n: nat) -> Seq<Seq<u8>> {
    Seq::new(n, |i: int| data.subrange(off + HASH_BYTES * i, off + HASH_BYTES * i + HASH_BYTES))
}

/// Reads one level: the number of its nodes, then the nodes. Yields the level and where it ends.
pub open spec fn read_level(data: Seq<u8>, off: int) -> Result<(Seq<Seq<u8>>, int), TreeTopError> {
    if off + 4 > data.len() {
        Err(TreeTopError::TruncatedLevel)
    } else {
        let n = le32(data, off);
        let end = off + 4 + HASH_BYTES * n;
        if end > data.len() {
            Err(TreeTopError::TruncatedHashes)
        } else {
            Ok((hashes_at(data, off + 4, n), end))
        }
    }
}

/// Reads `count` levels, one after the other.
pub open spec fn read_levels(data: Seq<u8>, off: int, count: nat) -> Result<
    (Seq<Seq<Seq<u8>>>, int),
    TreeTopError,
>
    decreases count,
{
    if count == 0 {
        Ok((Seq::empty(), off))
    } else {
        match read_levels(data, off, (count - 1) as nat) {
            Err(e) => Err(e),
            Ok((levels, end)) => match read_level(data, end) {
                Err(e) => Err(e),
                Ok((level, end)) => Ok((levels.push(level), end)),
            },
        }
    }
}

/// Reads one tree: the height of the lowest cached level in one byte, the number of nodes of the
/// tree in four, which is not kept, the children per node in two, the number of cached levels in
/// one, and the levels.
pub open spec fn read_top(data: Seq<u8>, off: int) -> Result<(TreeTopView, int), TreeTopError> {
    if off + 8 > data.len() {
        Err(TreeTopError::TruncatedRecord)
    } else {
        match read_levels(data, off + 8, data[off + 7] as nat) {
            Err(e) => Err(e),
            Ok((levels, end)) => Ok(
                (
                    TreeTopView {
                        cache_from: data[off] as nat,
                        arity: le16(data, off + 5),
                        levels,
                    },
                    end,
                ),
            ),
        }
    }
}

/// Reads `count` trees, one after the other.
pub open spec fn read_tops(data: Seq<u8>, off: int, count: nat) -> Result<
    (Seq<TreeTopView>, int),
    TreeTopError,
>
    decreases count,
{
    if count == 0 {
        Ok((Seq::empty(), off))
    } else {
        match read_tops(data, off, (count - 1) as nat) {
            Err(e) => Err(e),
            Ok((tops, end)) => match read_top(data, end) {
                Err(e) => Err(e),
                Ok((top, end)) => Ok((tops.push(top), end)),
            },
        }
    }
}

/// Reads a whole file: the number of trees in four bytes, then the trees, then nothing.
pub open spec fn tree_tops_of(data: Seq<u8>) -> Result<Seq<TreeTopView>, TreeTopError> {
    if data.len() < 4 {
        Err(TreeTopError::TooShort)
    } else {
        match read_tops(data, 4, le32(data, 0)) {
            Err(e) => Err(e),
            Ok((tops, end)) => if end == data.len() {
                Ok(tops)
            } else {
                Err(TreeTopError::TrailingBytes((data.len() - end) as usize))
            },
        }
    }
}

proof fn lemma_read_levels_err(data: Seq<u8>, off: int, i: nat, n: nat)
    requires
        i <= n,
        read_levels(data, off, i) is Err,
    ensures
        read_levels(data, off, n) == read_levels(data, off, i),
    decreases n,
{
    if i < n {
        lemma_read_levels_err(data, off, i, (n - 1) as nat);
    }
}

proof fn lemma_read_tops_err(data: Seq<u8>, off: int, i: nat, n: nat)
    requires
        i <= n,
        read_tops(data, off, i) is Err,
    ensures
        read_tops(data, off, n) == read_tops(data, off, i),
    decreases n,
{
    if i < n {
        lemma_read_tops_err(data, off, i, (n - 1) as nat);
    }
}

/// Reads one level from `off` on; yields it and where it ends.
fn parse_level(data: &[u8], off: usize) -> (r: Result<(Vec<Hash256>, usize), TreeTopError>)
    requires
        off <= data@.len(),
    ensures
        match r {
            Err(e) => read_level(data@, off as int) == Err::<(Seq<Seq<u8>>, int), TreeTopError>(e),
            Ok((level, end)) => {
                &&& read_level(data@, off as int) == Ok::<(Seq<Seq<u8>>, int), TreeTopError>(
                    (hash_views(level@), end as int),
                )
                &&& end <= data@.len()
            },
        },
{
    let len: usize = data.len();
    if len - off < 4 {
        return Err(TreeTopError::TruncatedLevel);
    }
    let n: usize = read_le32(data, off);
    let start: usize = off + 4;
    if n > (len - start) / HASH_BYTES {
        return Err(TreeTopError::TruncatedHashes);
    }
    let mut level: Vec<Hash256> = Vec::new();
    let mut at: usize = start;
    let mut i: usize = 0;
    while i < n
        invariant
            i <= n,
            len == data@.len(),
            start <= len,
            n <= (len - start) as int / HASH_BYTES as int,
            at == start + HASH_BYTES * i,
            level@.len() == i,
            forall|j: int|
                0 <= j < i ==> (#[trigger] level@[j])@ == data@.subrange(
                    start + HASH_BYTES * j,
                    start + HASH_BYTES * j + HASH_BYTES,
                ),
        decreases n - i,
    {
        level.push(read_hash(data, at));
        at = at + HASH_BYTES;
        i = i + 1;
    }
    assert(hash_views(level@) =~= hashes_at(data@, start as int, n as nat));
    Ok((level, at))
}

/// Reads one tree from `off` on; yields it and where it ends.
fn parse_top(data: &[u8], off: usize) -> (r: Result<(TreeTop, usize), TreeTopError>)
    requires
        off <= data@.len(),
    ensures
        match r {
            Err(e) => read_top(data@, off as int) == Err::<(TreeTopView, int), TreeTopError>(e),
            Ok((top, end)) => {
                &&& read_top(data@, off as int) == Ok::<(TreeTopView, int), TreeTopError>(
                    (top@, end as int),
                )
                &&& end <= data@.len()
            },
        },
{
    let len: usize = data.len();
    if len - off < 8 {
        return Err(TreeTopError::TruncatedRecord);
    }
    let cache_from: usize = data[off] as usize;
    let arity: usize = read_le16(data, off + 5);
    let num_levels: usize = data[off + 7] as usize;
    let start: usize = off + 8;
    let mut levels: Vec<Vec<Hash256>> = Vec::new();
    let mut at: usize = start;
    let mut i: usize = 0;
    assert(level_views(levels@) =~= Seq::empty());
    while i < num_levels
        invariant
            i <= num_levels,
            len == data@.len(),
            at <= len,
            off + 8 <= len,
            start == off + 8,
            num_levels == data@[off + 7],
            read_levels(data@, start as int, i as nat) == Ok::<
                (Seq<Seq<Seq<u8>>>, int),
                TreeTopError,
            >((level_views(levels@), at as int)),
        decreases num_levels - i,
    {
        match parse_level(data, at) {
            Err(e) => {
                proof {
                    lemma_read_levels_err(data@, start as int, (i + 1) as nat, num_levels as nat);
                }
                return Err(e);
            },
            Ok((level, end)) => {
                let ghost before = level_views(levels@);
                levels.push(level);
                assert(level_views(levels@) =~= before.push(hash_views(level@)));
                at = end;
            },
        }
        i = i + 1;
    }
    Ok((TreeTop { cache_from, arity, levels }, at))
}

/// Reads a file of tree tops.
pub fn parse_tree_tops(data: &[u8]) -> (r: Result<Vec<TreeTop>, TreeTopError>)
    ensures
        match r {
            Err(e) => tree_tops_of(data@) == Err::<Seq<TreeTopView>, TreeTopError>(e),
            Ok(tops) => tree_tops_of(data@) == Ok::<Seq<TreeTopView>, TreeTopError>(
                top_views(tops@),
            ),
        },
{
    let len: usize = data.len();
    if len < 4 {
        return Err(TreeTopError::TooShort);
    }
    let num_trees: usize = read_le32(data, 0);
    let mut trees: Vec<TreeTop> = Vec::new();
    let mut at: usize = 4;
    let mut i: usize = 0;
    assert(top_views(trees@) =~= Seq::empty());
    while i < num_trees
        invariant
            i <= num_trees,
            len == data@.len(),
            4 <= len,
            at <= len,
            num_trees == le32(data@, 0),
            read_tops(data@, 4, i as nat) == Ok::<(Seq<TreeTopView>, int), TreeTopError>(
                (top_views(trees@), at as int),
            ),
        decreases num_trees - i,
    {
        match parse_top(data, at) {
            Err(e) => {
                proof {
                    lemma_read_tops_err(data@, 4, (i + 1) as nat, num_trees as nat);
                }
                return Err(e);
            },
            Ok((top, end)) => {
                let ghost before = top_views(trees@);
                trees.push(top);
                assert(top_views(trees@) =~= before.push(top@));
                at = end;
            },
        }
        i = i + 1;
    }
    if at != len {
        return Err(TreeTopError::TrailingBytes(len - at));
    }
    Ok(trees)
}

/// Reads a file of roots, which is nothing but hashes; there are none where its length is not a
/// multiple of that of a hash.
pub fn read_roots(data: &[u8]) -> (r: Option<Vec<Hash256>>)
    ensures
        match r {
            None => data@.len() % (HASH_BYTES as nat) != 0,
            Some(roots) => data@.len() % (HASH_BYTES as nat) == 0 && hash_views(roots@)
                == hashes_at(data@, 0, data@.len() / (HASH_BYTES as nat)),
        },
{
    let len: usize = data.len();
    if len % HASH_BYTES != 0 {
        return None;
    }
    let n: usize = len / HASH_BYTES;
    let mut roots: Vec<Hash256> = Vec::new();
    let mut i: usize = 0;
    while i < n
        invariant
            i <= n,
            len == data@.len(),
            n == len / HASH_BYTES,
            roots@.len() == i,
            forall|j: int|
                0 <= j < i ==> (#[trigger] roots@[j])@ == data@.subrange(
                    HASH_BYTES * j,
                    HASH_BYTES * j + HASH_BYTES,
                ),
        decreases n - i,
    {
        roots.push(read_hash(data, HASH_BYTES * i));
        i = i + 1;
    }
    assert(hash_views(roots@) =~= hashes_at(data@, 0, n as nat));
    Some(roots)
}

/// Why the tree tops and roots of an artifact cannot be used.
#[derive(Clone, Copy, Debug, PartialEq, Eq, Structural)]
pub enum TreeCheckError {
    /// There is not one tree top and one root per group of both levels.
    Count { expected: usize },
    /// The tree top of a group does not start where the sibling tables end.
    CacheFrom { group: usize, cache_from: usize },
}

/// Whether the tree top of `group` starts above `siblings` sibling tables.
pub open spec fn cache_matches(
    tops: Seq<TreeTop>,
    offset: nat,
    group: int,
    siblings: usize,
) -> bool {
    tops[offset + group].cache_from == siblings
}

/// Checks that there is one tree top and one root per group of both levels, and that the tree
/// tops of the level start above its `siblings` sibling tables.
pub fn check_trees(
    tops: &Vec<TreeTop>,
    roots: &Vec<Hash256>,
    level: Level,
    all: &LevelParams,
    siblings: usize,
) -> (r: Result<(), TreeCheckError>)
    requires
        all.index.k + all.chunk.k <= usize::MAX,
    ensures
        ({
            let expected = all.index.k + all.chunk.k;
            let offset = level.group_offset(*all);
            let k = level.spec_params(*all).k;
            match r {
                Err(TreeCheckError::Count { expected: e }) => e == expected && (tops@.len()
                    != expected || roots@.len() != expected),
                Err(TreeCheckError::CacheFrom { group, cache_from }) => {
                    &&& tops@.len() == expected && roots@.len() == expected
                    &&& group < k
                    &&& !cache_matches(tops@, offset, group as int, siblings)
                    &&& cache_from == tops@[offset + group].cache_from
                    &&& forall|g: int|
                        0 <= g < group ==> #[trigger] cache_matches(tops@, offset, g, siblings)
                },
                Ok(()) => {
                    &&& tops@.len() == expected && roots@.len() == expected
                    &&& forall|g: int|
                        0 <= g < k ==> #[trigger] cache_matches(tops@, offset, g, siblings)
                },
            }
        }),
{
    let expected: usize = all.index.k + all.chunk.k;
    if tops.len() != expected || roots.len() != expected {
        return Err(TreeCheckError::Count { expected });
    }
    let offset: usize = level.tree_offset(all);
    let k: usize = level.params(all).k;
    let mut group: usize = 0;
    while group < k
        invariant
            group <= k,
            offset + k <= tops@.len(),
            tops@.len() == expected,
            roots@.len() == expected,
            expected == all.index.k + all.chunk.k,
            offset == level.group_offset(*all),
            k == level.spec_params(*all).k,
            forall|g: int|
                0 <= g < group ==> #[trigger] cache_matches(tops@, offset as nat, g, siblings),
        decreases k - group,
    {
        let cache_from: usize = tops[offset + group].cache_from;
        if cache_from != siblings {
            return Err(TreeCheckError::CacheFrom { group, cache_from });
        }
        group = group + 1;
    }
    Ok(())
}

} // verus!
