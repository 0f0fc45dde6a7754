//! What the verification of Merkle paths promises.
use crate::bytes::{zero_hash, Hash256, HASH_BYTES};
use crate::kinds::MERKLE_ARITY;
use crate::merkle::{ancestor, level_keys_made, sibling_target};
use crate::path::{
    leaf_made, parent_made, path_children, target_failures, top_root, TrialEvidence,
};
use vstd::arithmetic::div_mod::lemma_div_denominator;
use vstd::arithmetic::power::{lemma_pow_positive, pow};
use vstd::prelude::*;

verus! {

/// `parent_hash` computes the function `parent`.
pub open spec fn computes_parent<P: Fn(&Vec<Hash256>) -> Hash256>(
    parent_hash: P,
    parent: spec_fn(Seq<Seq<u8>>) -> Seq<u8>,
) -> bool {
    forall|children: Seq<Seq<u8>>, hash: Seq<u8>| #[trigger]
        parent_made(parent_hash, children, hash) ==> hash == parent(children)
}

/// `leaf_hash` computes the function `leaf`.
pub open spec fn computes_leaf<L: Fn(u32, &[u8]) -> Hash256>(
    leaf_hash: L,
    leaf: spec_fn(u32, Seq<u8>) -> Seq<u8>,
) -> bool {
    forall|bin: u32, content: Seq<u8>, hash: Seq<u8>| #[trigger]
        leaf_made(leaf_hash, bin, content, hash) ==> hash == leaf(bin, content)
}

/// The number of a bin's ancestor is the bin's number divided by the arity to the power of the
/// height.
pub proof fn law_ancestor_is_quotient(bin: nat, height: nat)
    ensures
        ancestor(bin, height) == bin as int / pow(MERKLE_ARITY as int, height),
    decreases height,
{
    reveal(pow);
    if height > 0 {
        law_ancestor_is_quotient(bin, (height - 1) as nat);
        let p = pow(MERKLE_ARITY as int, (height - 1) as nat);
        lemma_pow_positive(MERKLE_ARITY as int, (height - 1) as nat);
        lemma_div_denominator(bin as int, p, MERKLE_ARITY as int);
        assert(p * (MERKLE_ARITY as int) == (MERKLE_ARITY as int) * p) by (nonlinear_arith);
    }
}

proof fn lemma_no_target_failures(targets: Seq<nat>, bin: nat)
    requires
        forall|d: int| 0 <= d < targets.len() ==> #[trigger] targets[d] == ancestor(
            bin,
            (d + 1) as nat,
        ),
    ensures
        target_failures(targets, bin) == 0,
    decreases targets.len(),
{
    if targets.len() > 0 {
        let rest = targets.drop_last();
        assert forall|d: int| 0 <= d < rest.len() implies #[trigger] rest[d] == ancestor(
            bin,
            (d + 1) as nat,
        ) by {
            assert(targets[d] == ancestor(bin, (d + 1) as nat));
        }
        lemma_no_target_failures(rest, bin);
        assert(targets[targets.len() - 1] == ancestor(bin, targets.len()));
    }
}

/// The rows that `generate_keys` queries in a trial are those that the verification of the trial
/// expects.
pub proof fn law_generated_targets_verify<K, F: Fn(u64, u8) -> (K, K)>(
    evidence: TrialEvidence<'_>,
    gen: F,
    dpf_ns: Seq<u8>,
    server0: Seq<Vec<K>>,
    server1: Seq<Vec<K>>,
    group: usize,
)
    requires
        group < evidence.k,
        evidence.siblings <= dpf_ns.len(),
        forall|d: int|
            0 <= d < evidence.siblings ==> level_keys_made(
                gen,
                evidence.level,
                evidence.trial_index,
                evidence.bins_per_table,
                evidence.k,
                d as nat,
                dpf_ns[d],
                (#[trigger] evidence.targets@[d])@,
                server0[d]@,
                server1[d]@,
            ),
    ensures
        target_failures(evidence.group_targets(group as int), evidence.bin(group as int)) == 0,
{
    let targets = evidence.group_targets(group as int);
    let bin = evidence.bin(group as int);
    assert forall|d: int| 0 <= d < targets.len() implies #[trigger] targets[d] == ancestor(
        bin,
        (d + 1) as nat,
    ) by {
        assert(evidence.targets@[d]@[group as int] == sibling_target(
            evidence.trial_index,
            group,
            evidence.bins_per_table,
            evidence.level,
            d as nat,
        ));
    }
    lemma_no_target_failures(targets, bin);
}

/// `node` gives the hashes of a tree that is `width(h)` nodes wide at height `h`: there is a
/// parent for each node, every node above the leaves is the hash of its children, and a node that
/// does not exist is a zero hash.
pub open spec fn is_tree(
    node: spec_fn(nat, nat) -> Seq<u8>,
    width: spec_fn(nat) -> nat,
    parent: spec_fn(Seq<Seq<u8>>) -> Seq<u8>,
) -> bool {
    &&& forall|h: nat| #[trigger] parents_suffice(width, h)
    &&& forall|h: nat, i: nat|
        i < width(h + 1) ==> node(h + 1, i) == parent(#[trigger] tree_children(node, h, i))
    &&& forall|h: nat, i: nat| i >= width(h) ==> #[trigger] node(h, i) == zero_hash()
}

/// There is a node at height `h + 1` above each node at height `h`.
pub open spec fn parents_suffice(width: spec_fn(nat) -> nat, h: nat) -> bool {
    width(h) <= width(h + 1) * MERKLE_ARITY
}

/// The children of node `i` at height `h + 1`.
pub open spec fn tree_children(
    node: spec_fn(nat, nat) -> Seq<u8>,
    h: nat,
    i: nat,
) -> Seq<Seq<u8>> {
    Seq::new(MERKLE_ARITY as nat, |c: int| node(h, (i * MERKLE_ARITY + c) as nat))
}

/// The evidence of `group` comes from the tree `node`: the servers' rows hold the siblings of the
/// path, the cached levels are levels of the tree, the root is the tree's and is listed, and the
/// queried rows are those of the path.
pub open spec fn evidence_of_tree(
    evidence: TrialEvidence<'_>,
    group: int,
    node: spec_fn(nat, nat) -> Seq<u8>,
    width: spec_fn(nat) -> nat,
) -> bool {
    let bin = evidence.bin(group);
    let rows = evidence.rows(group);
    let levels = evidence.levels(group);
    let top = evidence.path_height(group);
    &&& bin < width(0)
    &&& evidence.top_usable(group)
    &&& target_failures(evidence.group_targets(group), bin) == 0
    &&& forall|d: int, c: int|
        0 <= d < rows.len() && 0 <= c < MERKLE_ARITY && c != ancestor(bin, d as nat) % (
        MERKLE_ARITY as nat) ==> #[trigger] rows[d].subrange(
            c * HASH_BYTES,
            c * HASH_BYTES + HASH_BYTES,
        ) == tree_children(node, d as nat, ancestor(bin, (d + 1) as nat))[c]
    &&& forall|j: int|
        0 <= j < levels.len() - 1 ==> (#[trigger] levels[j]).len() == width(
            (rows.len() + j) as nat,
        )
    &&& forall|j: int, i: int|
        0 <= j < levels.len() - 1 && 0 <= i < levels[j].len() ==> #[trigger] levels[j][i] == node(
            (rows.len() + j) as nat,
            i as nat,
        )
    &&& top_root(levels) == node(top, ancestor(bin, top))
    &&& evidence.root_listed(group, top_root(levels))
}

pub(crate) proof fn lemma_ancestor_exists(bin: nat, width: spec_fn(nat) -> nat, h: nat)
    requires
        bin < width(0),
        forall|h: nat| #[trigger] parents_suffice(width, h),
    ensures
        ancestor(bin, h) < width(h),
    decreases h,
{
    if h > 0 {
        let below = (h - 1) as nat;
        lemma_ancestor_exists(bin, width, below);
        assert(parents_suffice(width, below));
    }
}

proof fn lemma_position(i: nat)
    ensures
        (i / MERKLE_ARITY as nat) * MERKLE_ARITY + i % (MERKLE_ARITY as nat) == i,
        i % (MERKLE_ARITY as nat) < MERKLE_ARITY,
{
}

proof fn lemma_path_in_tree<L: Fn(u32, &[u8]) -> Hash256, P: Fn(&Vec<Hash256>) -> Hash256>(
    evidence: TrialEvidence<'_>,
    group: int,
    leaf_hash: L,
    parent_hash: P,
    parent: spec_fn(Seq<Seq<u8>>) -> Seq<u8>,
    node: spec_fn(nat, nat) -> Seq<u8>,
    width: spec_fn(nat) -> nat,
    path: Seq<Seq<u8>>,
    h: nat,
)
    requires
        computes_parent(parent_hash, parent),
        is_tree(node, width, parent),
        evidence_of_tree(evidence, group, node, width),
        evidence.path_hashed(group, leaf_hash, parent_hash, path),
        path[0] == node(0, evidence.bin(group)),
        h < path.len(),
    ensures
        path[h as int] == node(h, ancestor(evidence.bin(group), h)),
    decreases h,
{
    if h > 0 {
        let below = (h - 1) as nat;
        let bin = evidence.bin(group);
        let rows = evidence.rows(group);
        let levels = evidence.levels(group);
        lemma_path_in_tree(
            evidence,
            group,
            leaf_hash,
            parent_hash,
            parent,
            node,
            width,
            path,
            below,
        );
        let here = ancestor(bin, below);
        let up = ancestor(bin, h);
        let children = path_children(rows, levels, bin, below, path[below as int]);
        let of_tree = tree_children(node, below, up);
        assert(parent_made(parent_hash, children, path[(below + 1) as int]));
        lemma_ancestor_exists(bin, width, h);
        lemma_ancestor_exists(bin, width, below);
        assert(node(below + 1, up) == parent(of_tree));
        lemma_position(here);
        assert forall|c: int| 0 <= c < MERKLE_ARITY implies children[c] == of_tree[c] by {
            if c == here % (MERKLE_ARITY as nat) {
            } else if below < rows.len() {
                assert(rows[below as int].subrange(c * HASH_BYTES, c * HASH_BYTES + HASH_BYTES)
                    == tree_children(node, below, ancestor(bin, (below + 1) as nat))[c]);
            } else {
                let j = below - rows.len();
                let i = (up * MERKLE_ARITY + c) as nat;
                assert(levels[j].len() == width((rows.len() + j) as nat));
                if i < levels[j].len() {
                    assert(levels[j][i as int] == node((rows.len() + j) as nat, i));
                } else {
                    assert(node(below, i) == zero_hash());
                }
            }
        }
        assert(children =~= of_tree);
    }
}

/// The bins of a tree whose root is listed verify: where the servers' rows and the cached levels
/// come from a tree that has the bin's hash as its leaf, no failure is counted.
pub proof fn law_tree_path_verifies<L: Fn(u32, &[u8]) -> Hash256, P: Fn(&Vec<Hash256>) -> Hash256>(
    evidence: TrialEvidence<'_>,
    group: int,
    leaf_hash: L,
    parent_hash: P,
    leaf: spec_fn(u32, Seq<u8>) -> Seq<u8>,
    parent: spec_fn(Seq<Seq<u8>>) -> Seq<u8>,
    node: spec_fn(nat, nat) -> Seq<u8>,
    width: spec_fn(nat) -> nat,
    path: Seq<Seq<u8>>,
)
    requires
        computes_leaf(leaf_hash, leaf),
        computes_parent(parent_hash, parent),
        is_tree(node, width, parent),
        node(0, evidence.bin(group)) == leaf(
            evidence.bin(group) as u32,
            evidence.content(group),
        ),
        evidence_of_tree(evidence, group, node, width),
        evidence.path_hashed(group, leaf_hash, parent_hash, path),
    ensures
        evidence.group_failures(group, path) == 0,
{
    let h = (path.len() - 1) as nat;
    lemma_path_in_tree(evidence, group, leaf_hash, parent_hash, parent, node, width, path, h);
}

/// A trial verifies without failure exactly where every group does.
pub proof fn law_trial_verifies_iff_groups_do(
    evidence: TrialEvidence<'_>,
    paths: Seq<Seq<Seq<u8>>>,
)
    ensures
        evidence.trial_failures(paths) == 0 <==> forall|g: int|
            0 <= g < paths.len() ==> evidence.group_failures(g, #[trigger] paths[g]) == 0,
    decreases paths.len(),
{
    if paths.len() > 0 {
        let rest = paths.drop_last();
        let n = paths.len() - 1;
        law_trial_verifies_iff_groups_do(evidence, rest);
        if evidence.trial_failures(paths) == 0 {
            assert forall|g: int| 0 <= g < paths.len() implies evidence.group_failures(
                g,
                #[trigger] paths[g],
            ) == 0 by {
                if g < n {
                    assert(rest[g] == paths[g]);
                }
            }
        } else if forall|g: int|
            0 <= g < paths.len() ==> evidence.group_failures(g, #[trigger] paths[g]) == 0 {
            assert forall|g: int| 0 <= g < rest.len() implies evidence.group_failures(
                g,
                #[trigger] rest[g],
            ) == 0 by {
                assert(rest[g] == paths[g]);
            }
            assert(evidence.group_failures(n, paths[n]) == 0);
        }
    }
}

/// A trial over trees whose roots are listed verifies: no failure is counted where the evidence of
/// each group comes from a tree, `nodes(g)`, that has the hash of the group's bin as its leaf.
pub proof fn law_trees_verify<L: Fn(u32, &[u8]) -> Hash256, P: Fn(&Vec<Hash256>) -> Hash256>(
    evidence: TrialEvidence<'_>,
    leaf_hash: L,
    parent_hash: P,
    leaf: spec_fn(u32, Seq<u8>) -> Seq<u8>,
    parent: spec_fn(Seq<Seq<u8>>) -> Seq<u8>,
    nodes: spec_fn(int) -> spec_fn(nat, nat) -> Seq<u8>,
    width: spec_fn(nat) -> nat,
    paths: Seq<Seq<Seq<u8>>>,
)
    requires
        computes_leaf(leaf_hash, leaf),
        computes_parent(parent_hash, parent),
        evidence.paths_hashed(leaf_hash, parent_hash, paths),
        forall|g: int|
            0 <= g < paths.len() ==> {
                &&& is_tree(#[trigger] nodes(g), width, parent)
                &&& nodes(g)(0, evidence.bin(g)) == leaf(
                    evidence.bin(g) as u32,
                    evidence.content(g),
                )
                &&& evidence_of_tree(evidence, g, nodes(g), width)
            },
    ensures
        evidence.trial_failures(paths) == 0,
{
    assert forall|g: int| 0 <= g < paths.len() implies evidence.group_failures(
        g,
        #[trigger] paths[g],
    ) == 0 by {
        law_tree_path_verifies(
            evidence,
            g,
            leaf_hash,
            parent_hash,
            leaf,
            parent,
            nodes(g),
            width,
            paths[g],
        );
    }
    law_trial_verifies_iff_groups_do(evidence, paths);
}

/// The children that are hashed at height `h` of the path of `group`.
pub open spec fn children_at(
    evidence: TrialEvidence<'_>,
    group: int,
    path: Seq<Seq<u8>>,
    h: nat,
) -> Seq<Seq<u8>> {
    path_children(
        evidence.rows(group),
        evidence.levels(group),
        evidence.bin(group),
        h,
        path[h as int],
    )
}

/// Two paths hash different children to the same hash at height `h`.
pub open spec fn collide_at(
    a: TrialEvidence<'_>,
    b: TrialEvidence<'_>,
    group: int,
    parent: spec_fn(Seq<Seq<u8>>) -> Seq<u8>,
    path_a: Seq<Seq<u8>>,
    path_b: Seq<Seq<u8>>,
    h: nat,
) -> bool {
    &&& children_at(a, group, path_a, h) != children_at(b, group, path_b, h)
    &&& parent(children_at(a, group, path_a, h)) == parent(children_at(b, group, path_b, h))
}

proof fn lemma_paths_agree<L: Fn(u32, &[u8]) -> Hash256, P: Fn(&Vec<Hash256>) -> Hash256>(
    a: TrialEvidence<'_>,
    b: TrialEvidence<'_>,
    group: int,
    leaf_hash: L,
    parent_hash: P,
    parent: spec_fn(Seq<Seq<u8>>) -> Seq<u8>,
    path_a: Seq<Seq<u8>>,
    path_b: Seq<Seq<u8>>,
    h: nat,
)
    requires
        computes_parent(parent_hash, parent),
        forall|i: nat|
            i + 1 < path_a.len() ==> !(#[trigger] collide_at(
                a,
                b,
                group,
                parent,
                path_a,
                path_b,
                i,
            )),
        a.path_hashed(group, leaf_hash, parent_hash, path_a),
        b.path_hashed(group, leaf_hash, parent_hash, path_b),
        a.bin(group) == b.bin(group),
        path_a.len() == path_b.len(),
        path_a.last() == path_b.last(),
        h < path_a.len(),
    ensures
        path_a[h as int] == path_b[h as int],
    decreases path_a.len() - h,
{
    if h + 1 < path_a.len() {
        lemma_paths_agree(
            a,
            b,
            group,
            leaf_hash,
            parent_hash,
            parent,
            path_a,
            path_b,
            h + 1,
        );
        let ca = children_at(a, group, path_a, h);
        let cb = children_at(b, group, path_b, h);
        assert(parent_made(parent_hash, ca, path_a[(h + 1) as int]));
        assert(parent_made(parent_hash, cb, path_b[(h + 1) as int]));
        assert(!collide_at(a, b, group, parent, path_a, path_b, h));
        let pos = (ancestor(a.bin(group), h) % (MERKLE_ARITY as nat)) as int;
        assert(ca[pos] == path_a[h as int]);
        assert(cb[pos] == path_b[h as int]);
    }
}

/// A root vouches for one content of each bin: if two trials verify different contents of one bin
/// without failure, against trees of one height with the same root, then their evidence exhibits
/// a collision of one of the two hashes.
pub proof fn law_root_binds_content<
    L: Fn(u32, &[u8]) -> Hash256,
    P: Fn(&Vec<Hash256>) -> Hash256,
>(
    a: TrialEvidence<'_>,
    b: TrialEvidence<'_>,
    group: int,
    leaf_hash: L,
    parent_hash: P,
    leaf: spec_fn(u32, Seq<u8>) -> Seq<u8>,
    parent: spec_fn(Seq<Seq<u8>>) -> Seq<u8>,
    path_a: Seq<Seq<u8>>,
    path_b: Seq<Seq<u8>>,
)
    requires
        computes_leaf(leaf_hash, leaf),
        computes_parent(parent_hash, parent),
        a.path_hashed(group, leaf_hash, parent_hash, path_a),
        b.path_hashed(group, leaf_hash, parent_hash, path_b),
        a.group_failures(group, path_a) == 0,
        b.group_failures(group, path_b) == 0,
        a.bin(group) == b.bin(group),
        a.path_height(group) == b.path_height(group),
        top_root(a.levels(group)) == top_root(b.levels(group)),
        a.content(group) != b.content(group),
    ensures
        leaf(a.bin(group) as u32, a.content(group)) == leaf(
            a.bin(group) as u32,
            b.content(group),
        ) || exists|h: nat|
            h + 1 < path_a.len() && #[trigger] collide_at(
                a,
                b,
                group,
                parent,
                path_a,
                path_b,
                h,
            ),
{
    if forall|h: nat|
        h + 1 < path_a.len() ==> !(#[trigger] collide_at(
            a,
            b,
            group,
            parent,
            path_a,
            path_b,
            h,
        )) {
        lemma_paths_agree(a, b, group, leaf_hash, parent_hash, parent, path_a, path_b, 0);
        let bin = a.bin(group) as u32;
        assert(leaf_made(leaf_hash, bin, a.content(group), path_a[0]));
        assert(leaf_made(leaf_hash, bin, b.content(group), path_b[0]));
    }
}

} // verus!
