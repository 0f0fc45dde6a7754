//! What the verification of Merkle paths hashes, compares and counts, told without the functions
//! that its contracts are written with.
#[allow(unused_imports)]
use crate::byte_laws::law_checksum_of_rows;
#[allow(unused_imports)]
use crate::bytes::{checksum, hash_views, xor_seq, zero_hash, Hash256};
#[allow(unused_imports)]
use crate::merkle::ancestor;
#[allow(unused_imports)]
use crate::path::{leaf_made, parent_made, path_children, target_failures, top_root, TrialEvidence};
#[allow(unused_imports)]
use crate::path_laws::{law_ancestor_is_quotient, law_trial_verifies_iff_groups_do};
#[allow(unused_imports)]
use crate::random::target_of;
#[allow(unused_imports)]
use crate::tree::{level_views, TreeTop};
use vstd::arithmetic::power::pow;
use vstd::prelude::*;

verus! {

proof fn lemma_targets_counted(targets: Seq<nat>, bin: nat)
    ensures
        Set::<int>::new(
            |d: int|
                0 <= d < targets.len() && targets[d] != bin as int / pow(8, (d + 1) as nat),
        ).finite(),
        target_failures(targets, bin) == Set::<int>::new(
            |d: int|
                0 <= d < targets.len() && targets[d] != bin as int / pow(8, (d + 1) as nat),
        ).len(),
    decreases targets.len(),
{
    let all = Set::<int>::new(
        |d: int| 0 <= d < targets.len() && targets[d] != bin as int / pow(8, (d + 1) as nat),
    );
    if targets.len() == 0 {
        assert(all =~= Set::empty());
    } else {
        let rest = targets.drop_last();
        let n = targets.len() - 1;
        let before = Set::<int>::new(
            |d: int| 0 <= d < rest.len() && rest[d] != bin as int / pow(8, (d + 1) as nat),
        );
        lemma_targets_counted(rest, bin);
        law_ancestor_is_quotient(bin, targets.len());
        if targets[n] != bin as int / pow(8, (n + 1) as nat) {
            assert(all =~= before.insert(n));
        } else {
            assert(all =~= before);
        }
    }
}

/// The failures of a group: the sibling tables in which another row than the one above the group's
/// bin was queried; and then one, if the tree top has another arity than eight or does not start
/// where the sibling tables end, or else one if the list of roots does not hold the first node of
/// the last cached level at the place of the group's tree, and one if the path does not lead
/// there. A tree top without such a node has a root of zeros.
pub proof fn law_failures_of_group(evidence: TrialEvidence<'_>, group: int, path: Seq<Seq<u8>>)
    ensures
        evidence.group_failures(group, path) == ({
            let bin = target_of(
                evidence.trial_index,
                group as usize,
                evidence.bins_per_table,
                evidence.level,
            );
            let at = evidence.tree_offset + group;
            let top = evidence.tree_tops@[at];
            let n = top.levels@.len();
            let root = if n > 0 && top.levels@[n - 1]@.len() > 0 {
                top.levels@[n - 1]@[0]@
            } else {
                Seq::new(32, |i: int| 0u8)
            };
            Set::<int>::new(
                |d: int|
                    0 <= d < evidence.siblings && evidence.targets@[d]@[group] != bin as int
                        / pow(8, (d + 1) as nat),
            ).len() + (if top.arity != 8 || top.cache_from != evidence.siblings {
                1int
            } else {
                (if at < evidence.roots@.len() && evidence.roots@[at]@ == root {
                    0int
                } else {
                    1int
                }) + (if path.last() == root {
                    0int
                } else {
                    1int
                })
            })
        }),
{
    let targets = evidence.group_targets(group);
    let bin = evidence.bin(group);
    lemma_targets_counted(targets, bin);
    assert(Set::<int>::new(
        |d: int| 0 <= d < targets.len() && targets[d] != bin as int / pow(8, (d + 1) as nat),
    ) =~= Set::<int>::new(
        |d: int|
            0 <= d < evidence.siblings && evidence.targets@[d]@[group] != bin as int / pow(
                8,
                (d + 1) as nat,
            ),
    ));
    let top = evidence.tree_tops@[evidence.tree_offset + group];
    let n = top.levels@.len();
    lemma_root_of_top(top);
}

proof fn lemma_root_of_top(top: TreeTop)
    ensures
        top_root(level_views(top.levels@)) == ({
            let n = top.levels@.len();
            if n > 0 && top.levels@[n - 1]@.len() > 0 {
                top.levels@[n - 1]@[0]@
            } else {
                Seq::new(32, |i: int| 0u8)
            }
        }),
{
    let n = top.levels@.len();
    if n > 0 {
        assert(level_views(top.levels@).last() == hash_views(top.levels@[n - 1]@));
    }
    assert(zero_hash() =~= Seq::new(32, |i: int| 0u8));
}

/// A group without failure: its tree top has arity eight and starts where the sibling tables end,
/// its root is the one that is listed for it, the path leads to that root, and the row above the
/// bin was queried in every sibling table.
pub proof fn law_group_without_failure(evidence: TrialEvidence<'_>, group: int, path: Seq<Seq<u8>>)
    requires
        evidence.group_failures(group, path) == 0,
    ensures
        ({
            let at = evidence.tree_offset + group;
            let top = evidence.tree_tops@[at];
            let n = top.levels@.len();
            &&& top.arity == 8
            &&& top.cache_from == evidence.siblings
            &&& at < evidence.roots@.len()
            &&& path.last() == evidence.roots@[at]@
            &&& n > 0 && top.levels@[n - 1]@.len() > 0 ==> evidence.roots@[at]@ == top.levels@[n
                - 1]@[0]@
            &&& !(n > 0 && top.levels@[n - 1]@.len() > 0) ==> forall|i: int|
                0 <= i < 32 ==> #[trigger] evidence.roots@[at]@[i] == 0
        }),
        forall|d: int|
            0 <= d < evidence.siblings ==> (#[trigger] evidence.targets@[d])@[group] == target_of(
                evidence.trial_index,
                group as usize,
                evidence.bins_per_table,
                evidence.level,
            ) as int / pow(8, (d + 1) as nat),
{
    law_failures_of_group(evidence, group, path);
    let bin = target_of(
        evidence.trial_index,
        group as usize,
        evidence.bins_per_table,
        evidence.level,
    );
    let off = Set::<int>::new(
        |d: int|
            0 <= d < evidence.siblings && evidence.targets@[d]@[group] != bin as int / pow(
                8,
                (d + 1) as nat,
            ),
    );
    let targets = evidence.group_targets(group);
    lemma_targets_counted(targets, bin);
    assert(off =~= Set::<int>::new(
        |d: int| 0 <= d < targets.len() && targets[d] != bin as int / pow(8, (d + 1) as nat),
    ));
    assert(off.len() == 0);
    assert forall|d: int| 0 <= d < evidence.siblings implies (#[trigger]
    evidence.targets@[d])@[group] == bin as int / pow(8, (d + 1) as nat) by {
        if off.contains(d) {
            assert(off.len() > 0);
        }
    }
}

/// A trial without failure has no group with one, whichever its number: of each of them the root
/// of the tree top is listed at its place, and the path leads there.
pub proof fn law_trial_without_failure(
    evidence: TrialEvidence<'_>,
    paths: Seq<Seq<Seq<u8>>>,
    group: int,
)
    requires
        evidence.trial_failures(paths) == 0,
        0 <= group < paths.len(),
    ensures
        ({
            let at = evidence.tree_offset + group;
            let top = evidence.tree_tops@[at];
            let n = top.levels@.len();
            &&& top.arity == 8
            &&& top.cache_from == evidence.siblings
            &&& at < evidence.roots@.len()
            &&& paths[group].last() == evidence.roots@[at]@
            &&& n > 0 && top.levels@[n - 1]@.len() > 0 ==> evidence.roots@[at]@ == top.levels@[n
                - 1]@[0]@
        }),
{
    law_trial_verifies_iff_groups_do(evidence, paths);
    assert(evidence.group_failures(group, paths[group]) == 0);
    law_group_without_failure(evidence, group, paths[group]);
}

/// The failures and the checksum of a trial take in those of every group.
pub proof fn law_trial_takes_in_all_groups(evidence: TrialEvidence<'_>, paths: Seq<Seq<Seq<u8>>>)
    ensures
        evidence.trial_failures(paths) == Seq::new(paths.len(), |g: int| g).fold_left(
            0int,
            |acc: int, g: int| acc + evidence.group_failures(g, paths[g]),
        ),
        evidence.trial_checksum(paths) == Seq::new(paths.len(), |g: int| g).fold_left(
            0u64,
            |acc: u64, g: int| acc ^ evidence.group_checksum(g, paths[g]),
        ),
{
    lemma_failures_fold(evidence, paths, paths.len());
    assert(paths.take(paths.len() as int) =~= paths);
}

proof fn lemma_failures_fold(evidence: TrialEvidence<'_>, paths: Seq<Seq<Seq<u8>>>, n: nat)
    requires
        n <= paths.len(),
    ensures
        evidence.trial_failures(paths.take(n as int)) == Seq::new(n, |g: int| g).fold_left(
            0int,
            |acc: int, g: int| acc + evidence.group_failures(g, paths[g]),
        ),
        evidence.trial_checksum(paths.take(n as int)) == Seq::new(n, |g: int| g).fold_left(
            0u64,
            |acc: u64, g: int| acc ^ evidence.group_checksum(g, paths[g]),
        ),
    decreases n,
{
    let all = Seq::new(n, |g: int| g);
    if n > 0 {
        let m = (n - 1) as nat;
        lemma_failures_fold(evidence, paths, m);
        assert(all.drop_last() =~= Seq::new(m, |g: int| g));
        assert(paths.take(n as int).drop_last() =~= paths.take(m as int));
        assert(paths.take(n as int).last() == paths[m as int]);
    }
}

/// The checksum of a group takes in the hash of its bin, what the servers' answers combine to for
/// each sibling table, and, where the tree top can be used, the last hash of the path.
pub proof fn law_checksum_of_group(evidence: TrialEvidence<'_>, group: int, path: Seq<Seq<u8>>)
    ensures
        evidence.group_checksum(group, path) == ({
            let top = evidence.tree_tops@[evidence.tree_offset + group];
            let rows = Seq::new(
                evidence.siblings as nat,
                |d: int|
                    xor_seq(evidence.outputs0@[d]@[group]@, evidence.outputs1@[d]@[group]@),
            ).fold_left(0u64, |acc: u64, row: Seq<u8>| acc ^ checksum(row));
            if top.arity == 8 && top.cache_from == evidence.siblings {
                checksum(path[0]) ^ rows ^ checksum(path.last())
            } else {
                checksum(path[0]) ^ rows
            }
        }),
{
    law_checksum_of_rows(evidence.rows(group));
    assert(evidence.rows(group) =~= Seq::new(
        evidence.siblings as nat,
        |d: int| xor_seq(evidence.outputs0@[d]@[group]@, evidence.outputs1@[d]@[group]@),
    ));
}

/// The path of a group starts with the hash of the bytes of its bin, and has one hash more for each
/// sibling table and, where the tree top can be used, for each cached level but the last.
pub proof fn law_path_of_group<L: Fn(u32, &[u8]) -> Hash256, P: Fn(&Vec<Hash256>) -> Hash256>(
    evidence: TrialEvidence<'_>,
    group: int,
    leaf_hash: L,
    parent_hash: P,
    path: Seq<Seq<u8>>,
) -> (r: (&'static [u8], Hash256))
    requires
        evidence.path_hashed(group, leaf_hash, parent_hash, path),
    ensures
        ({
            let top = evidence.tree_tops@[evidence.tree_offset + group];
            let n = top.levels@.len() as int;
            let bin = target_of(
                evidence.trial_index,
                group as usize,
                evidence.bins_per_table,
                evidence.level,
            );
            let start = evidence.header_size + group * evidence.table_byte_size + bin
                * evidence.result_size;
            &&& path.len() == 1 + evidence.siblings + (if top.arity == 8 && top.cache_from
                == evidence.siblings && n > 0 {
                n - 1
            } else {
                0
            })
            &&& r.0@ == evidence.data@.subrange(start, start + evidence.result_size)
            &&& r.1@ == path[0]
            &&& call_ensures(leaf_hash, (bin as u32, r.0), r.1)
        }),
{
    let bin = evidence.bin(group);
    let (s, h) = choose|s: &[u8], h: Hash256|
        s@ == evidence.content(group) && h@ == path[0] && #[trigger] call_ensures(
            leaf_hash,
            (bin as u32, s),
            h,
        );
    assert(leaf_made(leaf_hash, bin as u32, evidence.content(group), path[0]));
    assert(evidence.levels(group).len() == evidence.tree_tops@[evidence.tree_offset
        + group].levels@.len());
    (s, h)
}

/// Each hash of a path but the first is made of eight children: at the place of the path's own node
/// stands the hash below, and at the others stands what the servers' answers combine to, as far as
/// the sibling tables go, and above them the nodes of the cached level around the path's own, or
/// zeros where there are none.
pub proof fn law_step_of_path<L: Fn(u32, &[u8]) -> Hash256, P: Fn(&Vec<Hash256>) -> Hash256>(
    evidence: TrialEvidence<'_>,
    group: int,
    leaf_hash: L,
    parent_hash: P,
    path: Seq<Seq<u8>>,
    h: int,
) -> (r: (Vec<Hash256>, Hash256))
    requires
        evidence.path_hashed(group, leaf_hash, parent_hash, path),
        0 <= h < path.len() - 1,
        h < evidence.siblings ==> evidence.outputs0@[h]@[group]@.len() >= 256
            && evidence.outputs1@[h]@[group]@.len() >= 256,
    ensures
        r.0@.len() == 8,
        r.1@ == path[h + 1],
        call_ensures(parent_hash, (&r.0,), r.1),
        forall|c: int|
            0 <= c < 8 ==> (#[trigger] r.0@[c])@ == ({
                let bin = target_of(
                    evidence.trial_index,
                    group as usize,
                    evidence.bins_per_table,
                    evidence.level,
                ) as int;
                let nodes = evidence.tree_tops@[evidence.tree_offset + group].levels@[h
                    - evidence.siblings]@;
                let i = 8 * (bin / pow(8, (h + 1) as nat)) + c;
                if c == (bin / pow(8, h as nat)) % 8 {
                    path[h]
                } else if h < evidence.siblings {
                    Seq::new(
                        32,
                        |j: int|
                            evidence.outputs0@[h]@[group]@[32 * c + j]
                                ^ evidence.outputs1@[h]@[group]@[32 * c + j],
                    )
                } else if i < nodes.len() {
                    nodes[i]@
                } else {
                    Seq::new(32, |j: int| 0u8)
                }
            }),
{
    let bin = evidence.bin(group);
    let rows = evidence.rows(group);
    let levels = evidence.levels(group);
    let children = path_children(rows, levels, bin, h as nat, path[h]);
    assert(parent_made(parent_hash, children, path[h + 1]));
    let (v, hash) = choose|v: Vec<Hash256>, hash: Hash256|
        hash_views(v@) == children && hash@ == path[h + 1] && #[trigger] call_ensures(
            parent_hash,
            (&v,),
            hash,
        );
    law_ancestor_is_quotient(bin, h as nat);
    law_ancestor_is_quotient(bin, (h + 1) as nat);
    let here = ancestor(bin, h as nat);
    let up = ancestor(bin, (h + 1) as nat);
    assert(up == here / 8);
    assert(children.len() == 8);
    assert(v@.len() == hash_views(v@).len());
    assert(zero_hash() =~= Seq::new(32, |j: int| 0u8));
    assert forall|c: int| 0 <= c < 8 implies (#[trigger] v@[c])@ == ({
        let nodes = evidence.tree_tops@[evidence.tree_offset + group].levels@[h
            - evidence.siblings]@;
        let i = 8 * up + c;
        if c == here % 8 {
            path[h]
        } else if h < evidence.siblings {
            Seq::new(
                32,
                |j: int|
                    evidence.outputs0@[h]@[group]@[32 * c + j]
                        ^ evidence.outputs1@[h]@[group]@[32 * c + j],
            )
        } else if i < nodes.len() {
            nodes[i]@
        } else {
            Seq::new(32, |j: int| 0u8)
        }
    }) by {
        assert(hash_views(v@)[c] == v@[c]@);
        assert(v@[c]@ == children[c]);
        if c != here % 8 {
            if h < evidence.siblings {
                assert(children[c] =~= Seq::new(
                    32,
                    |j: int|
                        evidence.outputs0@[h]@[group]@[32 * c + j]
                            ^ evidence.outputs1@[h]@[group]@[32 * c + j],
                ));
            } else {
                let nodes = evidence.tree_tops@[evidence.tree_offset + group].levels@[h
                    - evidence.siblings]@;
                assert(levels[h - rows.len()] == hash_views(nodes));
                let i = 8 * up + c;
                if i < nodes.len() {
                    assert(hash_views(nodes)[i as int] == nodes[i as int]@);
                }
            }
        }
    }
    (v, hash)
}

} // verus!
