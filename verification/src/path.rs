//! Verifying the Merkle path of each group's bin.
use crate::bytes::{
    bytes_equal, checksum_bytes, read_hash, xor_into, zero_hash_value, Hash256, HASH_BYTES,
};
use crate::kinds::{Level, MERKLE_ARITY};
use crate::layout::bin_slice;
use crate::random::target_bin;
use crate::tally::Verdict;
use crate::tree::TreeTop;
use vstd::prelude::*;
use vstd::slice::slice_to_vec;

#[allow(unused_imports)]
use crate::bytes::{checksum, hash_views, xor_seq, zero_hash};
#[allow(unused_imports)]
use crate::layout::{bin_at, bin_start};
#[allow(unused_imports)]
use crate::merkle::ancestor;
#[allow(unused_imports)]
use crate::random::target_of;
#[allow(unused_imports)]
use crate::tally::{row_checksums, rows_checksum};
#[allow(unused_imports)]
use crate::tree::level_views;

verus! {

/// What a trial is verified against: the tables, the queries, the answers of both servers, and the
/// tops and roots of all trees.
pub struct TrialEvidence<'a> {
    pub level: Level,
    pub trial_index: usize,
    /// Number of groups of the level.
    pub k: usize,
    /// Position of the level's first tree among all trees.
    pub tree_offset: usize,
    /// Number of sibling tables.
    pub siblings: usize,
    /// The file of tables whose bins are the leaves of the trees.
    pub data: &'a [u8],
    pub header_size: usize,
    pub bins_per_table: usize,
    pub result_size: usize,
    pub table_byte_size: usize,
    /// The rows that were queried, per sibling table and group.
    pub targets: &'a Vec<Vec<usize>>,
    /// The answers of each server, per sibling table and group.
    pub outputs0: &'a Vec<Vec<Vec<u8>>>,
    pub outputs1: &'a Vec<Vec<Vec<u8>>>,
    pub tree_tops: &'a Vec<TreeTop>,
    pub roots: &'a Vec<Hash256>,
}

/// The children of the node above a path's node: the path's own hash at its position, and the
/// hashes of `row` at the others.
pub open spec fn sibling_children(row: Seq<u8>, pos: int, current: Seq<u8>) -> Seq<Seq<u8>> {
    Seq::new(
        MERKLE_ARITY as nat,
        |c: int|
            if c == pos {
                current
            } else {
                row.subrange(c * HASH_BYTES, c * HASH_BYTES + HASH_BYTES)
            },
    )
}

/// The children of the node above node `idx` of a cached level: the path's own hash in its place,
/// its siblings among `nodes`, and zero hashes where there are none.
pub open spec fn top_children(nodes: Seq<Seq<u8>>, idx: nat, current: Seq<u8>) -> Seq<Seq<u8>> {
    let first = (idx / MERKLE_ARITY as nat) * MERKLE_ARITY as nat;
    Seq::new(
        MERKLE_ARITY as nat,
        |c: int|
            if c == idx % (MERKLE_ARITY as nat) {
                current
            } else if first + c < nodes.len() {
                nodes[first + c]
            } else {
                zero_hash()
            },
    )
}

/// The children of the node at height `height + 1` of the path of `bin`: the sibling tables give
/// the lower ones, and the cached levels the others.
pub open spec fn path_children(
    rows: Seq<Seq<u8>>,
    levels: Seq<Seq<Seq<u8>>>,
    bin: nat,
    height: nat,
    current: Seq<u8>,
) -> Seq<Seq<u8>> {
    if height < rows.len() {
        sibling_children(
            rows[height as int],
            (ancestor(bin, height) % (MERKLE_ARITY as nat)) as int,
            current,
        )
    } else {
        top_children(levels[height - rows.len()], ancestor(bin, height), current)
    }
}

/// `row` holds a hash at every position but `pos`.
pub open spec fn row_covers(row_len: nat, pos: int) -> bool {
    forall|c: int|
        0 <= c < MERKLE_ARITY && c != pos ==> #[trigger] (c * HASH_BYTES) + HASH_BYTES <= row_len
}

/// Whether `hash` can be what `leaf_hash` makes of a bin.
pub open spec fn leaf_made<L: Fn(u32, &[u8]) -> Hash256>(
    leaf_hash: L,
    bin: u32,
    content: Seq<u8>,
    hash: Seq<u8>,
) -> bool {
    exists|s: &[u8], h: Hash256|
        s@ == content && h@ == hash && #[trigger] call_ensures(leaf_hash, (bin, s), h)
}

/// Whether `hash` can be what `parent_hash` makes of the hashes of a node's children.
pub open spec fn parent_made<P: Fn(&Vec<Hash256>) -> Hash256>(
    parent_hash: P,
    children: Seq<Seq<u8>>,
    hash: Seq<u8>,
) -> bool {
    exists|v: Vec<Hash256>, h: Hash256|
        hash_views(v@) == children && h@ == hash && #[trigger] call_ensures(parent_hash, (&v,), h)
}

/// The root that a tree top holds: the first node of its last level.
pub open spec fn top_root(levels: Seq<Seq<Seq<u8>>>) -> Seq<u8> {
    if levels.len() > 0 && levels.last().len() > 0 {
        levels.last()[0]
    } else {
        zero_hash()
    }
}

/// How many of the queried rows are not those above the path's node.
pub open spec fn target_failures(targets: Seq<nat>, bin: nat) -> nat
    decreases targets.len(),
{
    if targets.len() == 0 {
        0
    } else {
        target_failures(targets.drop_last(), bin) + if targets.last() != ancestor(
            bin,
            targets.len(),
        ) {
            1nat
        } else {
            0nat
        }
    }
}

impl TrialEvidence<'_> {
    /// The bin that `group` queried.
    pub open spec fn bin(self, group: int) -> nat {
        target_of(self.trial_index, group as usize, self.bins_per_table, self.level)
    }

    /// The content of the bin that `group` queried.
    pub open spec fn content(self, group: int) -> Seq<u8> {
        bin_at(
            self.data@,
            self.header_size,
            self.table_byte_size,
            self.result_size,
            group,
            self.bin(group) as int,
        )
    }

    /// The rows that the servers' answers to the queries of `group` combine to.
    pub open spec fn rows(self, group: int) -> Seq<Seq<u8>> {
        Seq::new(
            self.siblings as nat,
            |d: int| xor_seq(self.outputs0@[d]@[group]@, self.outputs1@[d]@[group]@),
        )
    }

    /// The rows that `group` queried.
    pub open spec fn group_targets(self, group: int) -> Seq<nat> {
        Seq::new(self.siblings as nat, |d: int| self.targets@[d]@[group] as nat)
    }

    /// The tree top of `group`.
    pub open spec fn top(self, group: int) -> TreeTop {
        self.tree_tops@[self.tree_offset + group]
    }

    /// The cached levels of the tree of `group`.
    pub open spec fn levels(self, group: int) -> Seq<Seq<Seq<u8>>> {
        level_views(self.top(group).levels@)
    }

    /// The tree top of `group` continues where the sibling tables end.
    pub open spec fn top_usable(self, group: int) -> bool {
        self.top(group).arity == MERKLE_ARITY && self.top(group).cache_from == self.siblings
    }

    /// The list of roots holds `root` for `group`.
    pub open spec fn root_listed(self, group: int, root: Seq<u8>) -> bool {
        self.tree_offset + group < self.roots@.len() && self.roots@[self.tree_offset + group]@
            == root
    }

    /// The height up to which the path of `group` is hashed: past the sibling tables, and, where
    /// the tree top can be used, up to its last level.
    pub open spec fn path_height(self, group: int) -> nat {
        if self.top_usable(group) && self.levels(group).len() > 0 {
            (self.siblings + self.levels(group).len() - 1) as nat
        } else {
            self.siblings as nat
        }
    }

    /// `path` holds the hash of the bin of `group`, and of each node above it that is hashed.
    pub open spec fn path_hashed<L: Fn(u32, &[u8]) -> Hash256, P: Fn(&Vec<Hash256>) -> Hash256>(
        self,
        group: int,
        leaf_hash: L,
        parent_hash: P,
        path: Seq<Seq<u8>>,
    ) -> bool {
        &&& path.len() == self.path_height(group) + 1
        &&& leaf_made(leaf_hash, self.bin(group) as u32, self.content(group), path[0])
        &&& forall|h: int|
            0 <= h < path.len() - 1 ==> parent_made(
                parent_hash,
                path_children(
                    self.rows(group),
                    self.levels(group),
                    self.bin(group),
                    h as nat,
                    #[trigger] path[h],
                ),
                path[h + 1],
            )
    }

    /// The failures of `group`, given the hashes of its path: queried rows that are not on the
    /// path, a tree top that cannot be used, a root that is not listed, or a path that does not
    /// lead to the root.
    pub open spec fn group_failures(self, group: int, path: Seq<Seq<u8>>) -> nat {
        target_failures(self.group_targets(group), self.bin(group)) + if !self.top_usable(group) {
            1nat
        } else {
            let root = top_root(self.levels(group));
            (if !self.root_listed(group, root) {
                1nat
            } else {
                0nat
            }) + (if path.last() != root {
                1nat
            } else {
                0nat
            })
        }
    }

    /// The checksum of `group`: over the bin's hash, the combined rows, and the last hash of the
    /// path where the tree top can be used.
    pub open spec fn group_checksum(self, group: int, path: Seq<Seq<u8>>) -> u64 {
        let sum = checksum(path[0]) ^ rows_checksum(self.rows(group));
        if self.top_usable(group) {
            sum ^ checksum(path.last())
        } else {
            sum
        }
    }

    /// The failures of the first groups, given the hashes of their paths.
    pub open spec fn trial_failures(self, paths: Seq<Seq<Seq<u8>>>) -> nat
        decreases paths.len(),
    {
        if paths.len() == 0 {
            0
        } else {
            self.trial_failures(paths.drop_last()) + self.group_failures(
                paths.len() - 1,
                paths.last(),
            )
        }
    }

    /// The checksum of the first groups, given the hashes of their paths.
    pub open spec fn trial_checksum(self, paths: Seq<Seq<Seq<u8>>>) -> u64
        decreases paths.len(),
    {
        if paths.len() == 0 {
            0
        } else {
            self.trial_checksum(paths.drop_last()) ^ self.group_checksum(
                paths.len() - 1,
                paths.last(),
            )
        }
    }

    /// `paths` holds the hashes of the path of each of the first groups.
    pub open spec fn paths_hashed<L: Fn(u32, &[u8]) -> Hash256, P: Fn(&Vec<Hash256>) -> Hash256>(
        self,
        leaf_hash: L,
        parent_hash: P,
        paths: Seq<Seq<Seq<u8>>>,
    ) -> bool {
        forall|g: int|
            0 <= g < paths.len() ==> self.path_hashed(
                g,
                leaf_hash,
                parent_hash,
                #[trigger] paths[g],
            )
    }

    /// The evidence of `group` can be looked at: its bin lies in the tables, both servers answered
    /// all its queries with rows of one length that hold the siblings, and it has a tree top.
    pub open spec fn group_complete(self, group: int) -> bool {
        &&& self.bins_per_table > 0
        &&& bin_start(
            self.header_size,
            self.table_byte_size,
            self.result_size,
            group,
            self.bin(group) as int,
        ) + self.result_size <= self.data@.len()
        &&& self.siblings <= self.targets@.len()
        &&& self.siblings <= self.outputs0@.len()
        &&& self.siblings <= self.outputs1@.len()
        &&& forall|d: int|
            0 <= d < self.siblings ==> {
                &&& group < (#[trigger] self.targets@[d])@.len()
                &&& group < self.outputs0@[d]@.len()
                &&& group < self.outputs1@[d]@.len()
                &&& self.outputs0@[d]@[group]@.len() == self.outputs1@[d]@[group]@.len()
                &&& row_covers(
                    self.outputs0@[d]@[group]@.len(),
                    (ancestor(self.bin(group), d as nat) % (MERKLE_ARITY as nat)) as int,
                )
            }
        &&& self.tree_offset + group < self.tree_tops@.len()
    }
}

/// The children of the node above a path's node, taken from a sibling row.
fn children_from_row(row: &Vec<u8>, pos: usize, current: &Hash256) -> (r: Vec<Hash256>)
    requires
        pos < MERKLE_ARITY,
        row_covers(row@.len(), pos as int),
    ensures
        hash_views(r@) == sibling_children(row@, pos as int, current@),
{
    let mut children: Vec<Hash256> = Vec::new();
    let mut c: usize = 0;
    while c < MERKLE_ARITY
        invariant
            c <= MERKLE_ARITY,
            pos < MERKLE_ARITY,
            row_covers(row@.len(), pos as int),
            children@.len() == c,
            forall|j: int|
                0 <= j < c ==> (#[trigger] children@[j])@ == sibling_children(
                    row@,
                    pos as int,
                    current@,
                )[j],
        decreases MERKLE_ARITY - c,
    {
        if c == pos {
            children.push(*current);
        } else {
            assert((c as int * HASH_BYTES) + HASH_BYTES <= row@.len());
            children.push(read_hash(row.as_slice(), c * HASH_BYTES));
        }
        c = c + 1;
    }
    assert(hash_views(children@) =~= sibling_children(row@, pos as int, current@));
    children
}

/// The children of the node above node `idx` of a cached level.
fn children_from_top(nodes: &Vec<Hash256>, idx: usize, current: &Hash256) -> (r: Vec<Hash256>)
    ensures
        hash_views(r@) == top_children(hash_views(nodes@), idx as nat, current@),
{
    let pos: usize = idx % MERKLE_ARITY;
    let first: usize = (idx / MERKLE_ARITY) * MERKLE_ARITY;
    let n: usize = nodes.len();
    let mut children: Vec<Hash256> = Vec::new();
    let mut c: usize = 0;
    while c < MERKLE_ARITY
        invariant
            c <= MERKLE_ARITY,
            n == nodes@.len(),
            pos == idx % MERKLE_ARITY,
            first == (idx / MERKLE_ARITY) * MERKLE_ARITY,
            children@.len() == c,
            forall|j: int|
                0 <= j < c ==> (#[trigger] children@[j])@ == top_children(
                    hash_views(nodes@),
                    idx as nat,
                    current@,
                )[j],
        decreases MERKLE_ARITY - c,
    {
        if c == pos {
            children.push(*current);
        } else if first < n && c < n - first {
            children.push(nodes[first + c]);
        } else {
            children.push(zero_hash_value());
        }
        c = c + 1;
    }
    assert(hash_views(children@) =~= top_children(hash_views(nodes@), idx as nat, current@));
    children
}

/// The root that a tree top holds.
fn root_of_top(top: &TreeTop) -> (r: Hash256)
    ensures
        r@ == top_root(level_views(top.levels@)),
{
    let n: usize = top.levels.len();
    if n > 0 && top.levels[n - 1].len() > 0 {
        top.levels[n - 1][0]
    } else {
        zero_hash_value()
    }
}

proof fn lemma_target_failures_bound(targets: Seq<nat>, bin: nat)
    ensures
        target_failures(targets, bin) <= targets.len(),
    decreases targets.len(),
{
    if targets.len() > 0 {
        lemma_target_failures_bound(targets.drop_last(), bin);
    }
}

/// Verifies the path of one group.
pub fn verify_group<L: Fn(u32, &[u8]) -> Hash256, P: Fn(&Vec<Hash256>) -> Hash256>(
    evidence: &TrialEvidence<'_>,
    group: usize,
    leaf_hash: &L,
    parent_hash: &P,
) -> (r: Verdict)
    requires
        evidence.group_complete(group as int),
        evidence.siblings + 2 <= usize::MAX,
        forall|bin: u32, s: &[u8]| #[trigger] call_requires(*leaf_hash, (bin, s)),
        forall|v: Vec<Hash256>|
            v@.len() == MERKLE_ARITY ==> #[trigger] call_requires(*parent_hash, (&v,)),
    ensures
        exists|path: Seq<Seq<u8>>| #[trigger]
            evidence.path_hashed(group as int, *leaf_hash, *parent_hash, path) && r.failures
                == evidence.group_failures(group as int, path) && r.checksum
                == evidence.group_checksum(group as int, path),
        r.failures <= evidence.siblings + 2,
{
    let ghost g = group as int;
    let ghost rows = evidence.rows(g);
    let ghost levels = evidence.levels(g);
    let ghost targets = evidence.group_targets(g);
    let bin: usize = target_bin(
        evidence.trial_index,
        group,
        evidence.bins_per_table,
        evidence.level,
    );
    let content = bin_slice(
        evidence.data,
        evidence.header_size,
        evidence.table_byte_size,
        evidence.result_size,
        group,
        bin,
    );
    let leaf: Hash256 = leaf_hash(bin as u32, content);
    assert(leaf_made(*leaf_hash, bin as u32, evidence.content(g), leaf@)) by {
        assert(call_ensures(*leaf_hash, (bin as u32, content), leaf));
    }
    let leaf_sum: u64 = checksum_bytes(leaf.as_slice());
    let ghost mut path: Seq<Seq<u8>> = seq![leaf@];
    let mut current: Hash256 = leaf;
    let mut node: usize = bin;
    let mut failures: usize = 0;
    let mut row_sum: u64 = 0;
    let mut depth: usize = 0;
    assert(targets.take(0) =~= Seq::<nat>::empty());
    assert(row_checksums(rows.take(0)) =~= Seq::<u64>::empty());
    while depth < evidence.siblings
        invariant
            depth <= evidence.siblings,
            g == group,
            evidence.group_complete(g),
            evidence.siblings + 2 <= usize::MAX,
            rows == evidence.rows(g),
            levels == evidence.levels(g),
            targets == evidence.group_targets(g),
            bin == evidence.bin(g),
            node == ancestor(bin as nat, depth as nat),
            forall|v: Vec<Hash256>|
                v@.len() == MERKLE_ARITY ==> #[trigger] call_requires(*parent_hash, (&v,)),
            path.len() == depth + 1,
            path[0] == leaf@,
            path.last() == current@,
            forall|h: int|
                0 <= h < path.len() - 1 ==> parent_made(
                    *parent_hash,
                    path_children(rows, levels, bin as nat, h as nat, #[trigger] path[h]),
                    path[h + 1],
                ),
            failures == target_failures(targets.take(depth as int), bin as nat),
            row_sum == rows_checksum(rows.take(depth as int)),
        decreases evidence.siblings - depth,
    {
        assert(group < evidence.targets@[depth as int]@.len());
        let mut row: Vec<u8> = slice_to_vec(evidence.outputs0[depth][group].as_slice());
        xor_into(row.as_mut_slice(), evidence.outputs1[depth][group].as_slice());
        assert(row@ == rows[depth as int]);
        row_sum = row_sum ^ checksum_bytes(row.as_slice());
        let pos: usize = node % MERKLE_ARITY;
        let parent: usize = node / MERKLE_ARITY;
        proof {
            lemma_target_failures_bound(targets.take(depth as int), bin as nat);
            assert(targets.take(depth + 1).drop_last() =~= targets.take(depth as int));
            assert(rows.take(depth + 1).drop_last() =~= rows.take(depth as int));
            assert(row_checksums(rows.take(depth + 1)).drop_last() =~= row_checksums(
                rows.take(depth as int),
            ));
            assert(parent == ancestor(bin as nat, (depth + 1) as nat));
        }
        if evidence.targets[depth][group] != parent {
            failures = failures + 1;
        }
        let children = children_from_row(&row, pos, &current);
        assert(children@.len() == hash_views(children@).len());
        let next: Hash256 = parent_hash(&children);
        proof {
            let before = path;
            path = before.push(next@);
            let made = path_children(rows, levels, bin as nat, depth as nat, before[depth as int]);
            assert(hash_views(children@) == made);
            assert(call_ensures(*parent_hash, (&children,), next));
            assert(parent_made(*parent_hash, made, next@));
            assert forall|h: int| 0 <= h < path.len() - 1 implies parent_made(
                *parent_hash,
                path_children(rows, levels, bin as nat, h as nat, #[trigger] path[h]),
                path[h + 1],
            ) by {
                assert(path[h] == before[h]);
                if h < depth {
                    assert(path[h + 1] == before[h + 1]);
                }
            }
        }
        current = next;
        node = parent;
        depth = depth + 1;
    }
    assert(targets.take(depth as int) =~= targets);
    assert(rows.take(depth as int) =~= rows);
    proof {
        lemma_target_failures_bound(targets, bin as nat);
    }
    let trees: usize = evidence.tree_tops.len();
    let top: &TreeTop = &evidence.tree_tops[evidence.tree_offset + group];
    if top.arity != MERKLE_ARITY || top.cache_from != evidence.siblings {
        assert(!evidence.top_usable(g));
        assert(evidence.path_hashed(g, *leaf_hash, *parent_hash, path));
        return Verdict { failures: failures + 1, checksum: leaf_sum ^ row_sum };
    }
    let count: usize = top.levels.len();
    let steps: usize = if count > 0 {
        count - 1
    } else {
        0
    };
    let mut j: usize = 0;
    while j < steps
        invariant
            j <= steps,
            g == group,
            evidence.group_complete(g),
            *top == evidence.top(g),
            count == top.levels@.len(),
            steps == (if count > 0 {
                (count - 1) as int
            } else {
                0
            }),
            rows == evidence.rows(g),
            rows.len() == evidence.siblings,
            levels == evidence.levels(g),
            bin == evidence.bin(g),
            node == ancestor(bin as nat, (evidence.siblings + j) as nat),
            forall|v: Vec<Hash256>|
                v@.len() == MERKLE_ARITY ==> #[trigger] call_requires(*parent_hash, (&v,)),
            path.len() == evidence.siblings + j + 1,
            path[0] == leaf@,
            path.last() == current@,
            forall|h: int|
                0 <= h < path.len() - 1 ==> parent_made(
                    *parent_hash,
                    path_children(rows, levels, bin as nat, h as nat, #[trigger] path[h]),
                    path[h + 1],
                ),
        decreases steps - j,
    {
        let children = children_from_top(&top.levels[j], node, &current);
        assert(children@.len() == hash_views(children@).len());
        let next: Hash256 = parent_hash(&children);
        proof {
            let before = path;
            let height = evidence.siblings + j;
            path = before.push(next@);
            let made = path_children(rows, levels, bin as nat, height as nat, before[height]);
            assert(levels[j as int] == hash_views(top.levels@[j as int]@));
            assert(hash_views(children@) == made);
            assert(call_ensures(*parent_hash, (&children,), next));
            assert(parent_made(*parent_hash, made, next@));
            assert forall|h: int| 0 <= h < path.len() - 1 implies parent_made(
                *parent_hash,
                path_children(rows, levels, bin as nat, h as nat, #[trigger] path[h]),
                path[h + 1],
            ) by {
                assert(path[h] == before[h]);
                if h < height {
                    assert(path[h + 1] == before[h + 1]);
                }
            }
            assert(ancestor(bin as nat, (height + 1) as nat) == ancestor(
                bin as nat,
                height as nat,
            ) / (MERKLE_ARITY as nat));
        }
        current = next;
        node = node / MERKLE_ARITY;
        j = j + 1;
    }
    let root: Hash256 = root_of_top(top);
    let tree_idx: usize = evidence.tree_offset + group;
    if !(tree_idx < evidence.roots.len() && bytes_equal(
        evidence.roots[tree_idx].as_slice(),
        root.as_slice(),
    )) {
        failures = failures + 1;
    }
    if !bytes_equal(current.as_slice(), root.as_slice()) {
        failures = failures + 1;
    }
    assert(evidence.top_usable(g));
    assert(evidence.path_hashed(g, *leaf_hash, *parent_hash, path));
    Verdict { failures, checksum: leaf_sum ^ row_sum ^ checksum_bytes(current.as_slice()) }
}

/// Verifies the paths of all groups: `leaf_hash` hashes a bin, and `parent_hash` the hashes of a
/// node's children.
pub fn verify_trial<L: Fn(u32, &[u8]) -> Hash256, P: Fn(&Vec<Hash256>) -> Hash256>(
    evidence: &TrialEvidence<'_>,
    leaf_hash: L,
    parent_hash: P,
) -> (r: Verdict)
    requires
        forall|g: int| 0 <= g < evidence.k ==> #[trigger] evidence.group_complete(g),
        evidence.siblings + 2 <= usize::MAX,
        evidence.k * (evidence.siblings + 2) <= usize::MAX,
        forall|bin: u32, s: &[u8]| #[trigger] call_requires(leaf_hash, (bin, s)),
        forall|v: Vec<Hash256>|
            v@.len() == MERKLE_ARITY ==> #[trigger] call_requires(parent_hash, (&v,)),
    ensures
        exists|paths: Seq<Seq<Seq<u8>>>| #[trigger]
            evidence.paths_hashed(leaf_hash, parent_hash, paths) && paths.len() == evidence.k
                && r.failures == evidence.trial_failures(paths) && r.checksum
                == evidence.trial_checksum(paths),
{
    let mut failures: usize = 0;
    let mut checksum: u64 = 0;
    let ghost mut paths: Seq<Seq<Seq<u8>>> = Seq::empty();
    let ghost most = evidence.siblings + 2;
    let mut group: usize = 0;
    while group < evidence.k
        invariant
            group <= evidence.k,
            most == evidence.siblings + 2,
            most <= usize::MAX,
            evidence.k * most <= usize::MAX,
            forall|g: int| 0 <= g < evidence.k ==> #[trigger] evidence.group_complete(g),
            forall|bin: u32, s: &[u8]| #[trigger] call_requires(leaf_hash, (bin, s)),
            forall|v: Vec<Hash256>|
                v@.len() == MERKLE_ARITY ==> #[trigger] call_requires(parent_hash, (&v,)),
            evidence.paths_hashed(leaf_hash, parent_hash, paths),
            paths.len() == group,
            failures == evidence.trial_failures(paths),
            failures <= group * most,
            checksum == evidence.trial_checksum(paths),
        decreases evidence.k - group,
    {
        assert(evidence.group_complete(group as int));
        let verdict = verify_group(evidence, group, &leaf_hash, &parent_hash);
        proof {
            let path = choose|path: Seq<Seq<u8>>| #[trigger]
                evidence.path_hashed(group as int, leaf_hash, parent_hash, path)
                    && verdict.failures == evidence.group_failures(group as int, path)
                    && verdict.checksum == evidence.group_checksum(group as int, path);
            let before = paths;
            paths = before.push(path);
            assert(paths.drop_last() =~= before);
            assert forall|g: int| 0 <= g < paths.len() implies evidence.path_hashed(
                g,
                leaf_hash,
                parent_hash,
                #[trigger] paths[g],
            ) by {
                if g < group {
                    assert(paths[g] == before[g]);
                }
            }
            let k = evidence.k as int;
            let n = group as int;
            assert(n * most + most <= k * most) by (nonlinear_arith)
                requires
                    n + 1 <= k,
                    0 <= most,
            ;
            assert((n + 1) * most == n * most + most) by (nonlinear_arith);
        }
        failures = failures + verdict.failures;
        checksum = checksum ^ verdict.checksum;
        group = group + 1;
    }
    Verdict { failures, checksum }
}

} // verus!
