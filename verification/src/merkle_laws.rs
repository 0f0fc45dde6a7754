//! What a whole trial of the Merkle round promises.
#[allow(unused_imports)]
use crate::bytes::{xor_seq, Hash256, HASH_BYTES};
#[allow(unused_imports)]
use crate::dpf::{law_honest_answers_combine, table_rows};
#[allow(unused_imports)]
use crate::dpf_trial::gen_splits;
#[allow(unused_imports)]
use crate::kinds::{Level, MERKLE_ARITY, MERKLE_ROW_SIZE};
#[allow(unused_imports)]
use crate::layout::{
    bin_at, entry_at, law_bin_is_table_entry, lemma_table_in_file, TableLayout,
};
#[allow(unused_imports)]
use crate::merkle::{
    ancestor, keys_made, level_keys_made, levels_collected, levels_ran, row_ran, rows_ran, served,
    sibling_target, MerkleKeys, MerkleServerRun, RowRun, SiblingTable,
};
#[allow(unused_imports)]
use crate::merkle_trial::{evidence_of, report_of, MerkleReport};
#[allow(unused_imports)]
use crate::path::{target_failures, top_root, TrialEvidence};
#[allow(unused_imports)]
use crate::path_laws::{
    computes_leaf, computes_parent, evidence_of_tree, is_tree, law_generated_targets_verify,
    law_trees_verify, lemma_ancestor_exists, tree_children,
};
#[allow(unused_imports)]
use crate::select::select_xor;
#[allow(unused_imports)]
use crate::timing::PhaseTimes;
#[allow(unused_imports)]
use crate::tree::TreeTop;
use vstd::prelude::*;

verus! {

/// `eval` answers a query with the exclusive or of the rows that the key selects: those that
/// `pick` of the key picks.
pub open spec fn eval_selects<K, E: Fn(&K, &[u8], usize, usize) -> (Vec<Vec<u8>>, PhaseTimes)>(
    eval: &E,
    pick: spec_fn(K) -> spec_fn(int) -> bool,
) -> bool {
    forall|key: K, table: Seq<u8>, bins: usize, run: RowRun|
        table.len() == bins * MERKLE_ROW_SIZE && #[trigger] row_ran(key, table, bins, eval, run)
            ==> run.row@ == select_xor(
            Seq::new(bins as nat, |b: int| entry_at(table, MERKLE_ROW_SIZE, b)),
            pick(key),
            MERKLE_ROW_SIZE as nat,
        )
}

/// The sibling tables have the groups of the level, and rows of hashes.
pub open spec fn sibling_tables(siblings: Seq<SiblingTable<'_>>, k: usize) -> bool {
    forall|d: int|
        0 <= d < siblings.len() ==> {
            let table = #[trigger] siblings[d];
            &&& table.wf()
            &&& k <= table.layout.k
            &&& table.layout.result_size == MERKLE_ROW_SIZE
        }
}

/// Row `row` of the table of `group` of a sibling table.
pub open spec fn sibling_row(table: SiblingTable<'_>, group: int, row: int) -> Seq<u8> {
    bin_at(
        table.data@,
        table.layout.header_size,
        table.layout.table_byte_size,
        table.layout.result_size,
        group,
        row,
    )
}

proof fn lemma_row_selected<K, E: Fn(&K, &[u8], usize, usize) -> (Vec<Vec<u8>>, PhaseTimes)>(
    keys: Seq<Vec<K>>,
    siblings: Seq<SiblingTable<'_>>,
    k: usize,
    eval: &E,
    pick: spec_fn(K) -> spec_fn(int) -> bool,
    run: MerkleServerRun,
    d: int,
    group: int,
)
    requires
        sibling_tables(siblings, k),
        eval_selects(eval, pick),
        served(keys, siblings, eval, run),
        0 <= d < siblings.len(),
        0 <= group < k,
        keys[d]@.len() == k,
    ensures
        run.outputs@[d]@[group]@ == select_xor(
            table_rows(siblings[d].layout, siblings[d].data@, group),
            pick(keys[d]@[group]),
            MERKLE_ROW_SIZE as nat,
        ),
{
    let levels = choose|levels: Seq<Seq<RowRun>>| #[trigger]
        levels_ran(keys, siblings, eval, levels) && levels.len() == siblings.len()
            && levels_collected(levels, run);
    let l = siblings[d].layout;
    let data = siblings[d].data@;
    let table = siblings[d].table(group);
    assert(rows_ran(keys[d]@, siblings[d], eval, levels[d]));
    assert(run.outputs@[d]@ == levels[d].map_values(|r: RowRun| r.row));
    assert(row_ran(keys[d]@[group], table, l.bins_per_table, eval, levels[d][group]));
    lemma_table_in_file(l, group);
    let entries = Seq::new(l.bins_per_table as nat, |b: int| entry_at(table, MERKLE_ROW_SIZE, b));
    assert(entries =~= table_rows(l, data, group)) by {
        assert forall|b: int| 0 <= b < l.bins_per_table implies entries[b] == table_rows(
            l,
            data,
            group,
        )[b] by {
            law_bin_is_table_entry(l, data, group, b);
        }
    }
}

/// Where `eval` answers with the exclusive or of the rows that a key selects, and the two keys for
/// a row differ in that row alone, the servers' answers combine to the row that was queried.
pub proof fn law_queried_rows_are_fetched<
    K,
    G: Fn(u64, u8) -> (K, K),
    E: Fn(&K, &[u8], usize, usize) -> (Vec<Vec<u8>>, PhaseTimes),
>(
    level: Level,
    trial_index: usize,
    bins_per_table: usize,
    k: usize,
    dpf_ns: Seq<u8>,
    siblings: Seq<SiblingTable<'_>>,
    gen: G,
    eval: &E,
    pick: spec_fn(K) -> spec_fn(int) -> bool,
    keys: MerkleKeys<K>,
    s0: MerkleServerRun,
    s1: MerkleServerRun,
    d: int,
    group: int,
)
    requires
        sibling_tables(siblings, k),
        siblings.len() == dpf_ns.len(),
        eval_selects(eval, pick),
        0 <= d < siblings.len(),
        0 <= group < k,
        gen_splits(gen, siblings[d].layout.bins_per_table, dpf_ns[d], pick),
        keys_made(gen, level, trial_index, bins_per_table, k, dpf_ns, keys),
        served(keys.server0@, siblings, eval, s0),
        served(keys.server1@, siblings, eval, s1),
        keys.targets@[d]@[group] < siblings[d].layout.bins_per_table,
    ensures
        xor_seq(s0.outputs@[d]@[group]@, s1.outputs@[d]@[group]@) == sibling_row(
            siblings[d],
            group,
            keys.targets@[d]@[group] as int,
        ),
{
    let l = siblings[d].layout;
    let data = siblings[d].data@;
    let target = keys.targets@[d]@[group];
    let a = keys.server0@[d]@[group];
    let b = keys.server1@[d]@[group];
    assert(level_keys_made(
        gen,
        level,
        trial_index,
        bins_per_table,
        k,
        d as nat,
        dpf_ns[d],
        keys.targets@[d]@,
        keys.server0@[d]@,
        keys.server1@[d]@,
    ));
    let g = group as usize;
    assert(keys.server0@[d]@[g as int] == a);
    assert(call_ensures(gen, (target as u64, dpf_ns[d]), (a, b)));
    lemma_row_selected(keys.server0@, siblings, k, eval, pick, s0, d, group);
    lemma_row_selected(keys.server1@, siblings, k, eval, pick, s1, d, group);
    let p = pick(a);
    let q = pick(b);
    assert forall|i: int| 0 <= i < l.bins_per_table implies (#[trigger] p(i) != q(i) <==> i
        == target) by {
        assert(pick(a)(i) == p(i));
    }
    law_honest_answers_combine(l, data, group, target as int, p, q);
}

/// The files of an artifact hold the tree `node` of `group`: its leaves are the hashes of the
/// bins, the sibling tables hold the children of its lower nodes, the tree top its upper levels,
/// and the list of roots its root.
pub open spec fn artifact_of_tree(
    l: TableLayout,
    data: Seq<u8>,
    siblings: Seq<SiblingTable<'_>>,
    top: TreeTop,
    root: Option<Seq<u8>>,
    leaf: spec_fn(u32, Seq<u8>) -> Seq<u8>,
    node: spec_fn(nat, nat) -> Seq<u8>,
    width: spec_fn(nat) -> nat,
    group: int,
) -> bool {
    let n = siblings.len();
    let levels = top@.levels;
    &&& l.bins_per_table <= width(0)
    &&& forall|b: int|
        0 <= b < l.bins_per_table ==> #[trigger] node(0, b as nat) == leaf(
            b as u32,
            bin_at(data, l.header_size, l.table_byte_size, l.result_size, group, b),
        )
    &&& forall|d: int|
        0 <= d < n ==> width((d + 1) as nat) <= (#[trigger] siblings[d]).layout.bins_per_table
    &&& forall|d: int, r: int, c: int|
        0 <= d < n && 0 <= r < width((d + 1) as nat) && 0 <= c < MERKLE_ARITY
            ==> #[trigger] sibling_row(siblings[d], group, r).subrange(
            c * HASH_BYTES,
            c * HASH_BYTES + HASH_BYTES,
        ) == tree_children(node, d as nat, r as nat)[c]
    &&& top.arity == MERKLE_ARITY
    &&& top.cache_from == n
    &&& levels.len() > 0
    &&& forall|j: int|
        0 <= j < levels.len() - 1 ==> (#[trigger] levels[j]).len() == width((n + j) as nat)
    &&& forall|j: int, i: int|
        0 <= j < levels.len() - 1 && 0 <= i < levels[j].len() ==> #[trigger] levels[j][i] == node(
            (n + j) as nat,
            i as nat,
        )
    &&& width((n + levels.len() - 1) as nat) == 1
    &&& top_root(levels) == node((n + levels.len() - 1) as nat, 0)
    &&& root == Some(top_root(levels))
}

/// The root that the list holds at `at`.
pub open spec fn listed_root(roots: Seq<Hash256>, at: int) -> Option<Seq<u8>> {
    if 0 <= at < roots.len() {
        Some(roots[at]@)
    } else {
        None
    }
}

/// The row that the servers' answers combine to is the one above the path's node.
proof fn lemma_path_row<
    K,
    G: Fn(u64, u8) -> (K, K),
    E: Fn(&K, &[u8], usize, usize) -> (Vec<Vec<u8>>, PhaseTimes),
>(
    evidence: TrialEvidence<'_>,
    dpf_ns: Seq<u8>,
    siblings: Seq<SiblingTable<'_>>,
    gen: G,
    eval: &E,
    pick: spec_fn(K) -> spec_fn(int) -> bool,
    keys: MerkleKeys<K>,
    s0: MerkleServerRun,
    s1: MerkleServerRun,
    d: int,
    group: int,
)
    requires
        sibling_tables(siblings, evidence.k),
        siblings.len() == dpf_ns.len(),
        evidence.siblings == dpf_ns.len(),
        *evidence.targets == keys.targets,
        *evidence.outputs0 == s0.outputs,
        *evidence.outputs1 == s1.outputs,
        eval_selects(eval, pick),
        0 <= d < siblings.len(),
        0 <= group < evidence.k,
        gen_splits(gen, siblings[d].layout.bins_per_table, dpf_ns[d], pick),
        keys_made(
            gen,
            evidence.level,
            evidence.trial_index,
            evidence.bins_per_table,
            evidence.k,
            dpf_ns,
            keys,
        ),
        served(keys.server0@, siblings, eval, s0),
        served(keys.server1@, siblings, eval, s1),
        ancestor(evidence.bin(group), (d + 1) as nat) < siblings[d].layout.bins_per_table,
    ensures
        evidence.rows(group)[d] == sibling_row(
            siblings[d],
            group,
            ancestor(evidence.bin(group), (d + 1) as nat) as int,
        ),
{
    let i = group as usize;
    assert(level_keys_made(
        gen,
        evidence.level,
        evidence.trial_index,
        evidence.bins_per_table,
        evidence.k,
        d as nat,
        dpf_ns[d],
        keys.targets@[d]@,
        keys.server0@[d]@,
        keys.server1@[d]@,
    ));
    assert(keys.targets@[d]@[i as int] == sibling_target(
        evidence.trial_index,
        i,
        evidence.bins_per_table,
        evidence.level,
        d as nat,
    ));
    law_queried_rows_are_fetched(
        evidence.level,
        evidence.trial_index,
        evidence.bins_per_table,
        evidence.k,
        dpf_ns,
        siblings,
        gen,
        eval,
        pick,
        keys,
        s0,
        s1,
        d,
        group,
    );
}

/// The evidence of a group whose files hold a tree comes from that tree, if the rows are those
/// above the path.
proof fn lemma_evidence_from_files(
    evidence: TrialEvidence<'_>,
    l: TableLayout,
    siblings: Seq<SiblingTable<'_>>,
    leaf: spec_fn(u32, Seq<u8>) -> Seq<u8>,
    parent: spec_fn(Seq<Seq<u8>>) -> Seq<u8>,
    node: spec_fn(nat, nat) -> Seq<u8>,
    width: spec_fn(nat) -> nat,
    group: int,
)
    requires
        evidence.k == l.k,
        evidence.header_size == l.header_size,
        evidence.bins_per_table == l.bins_per_table,
        evidence.result_size == l.result_size,
        evidence.table_byte_size == l.table_byte_size,
        evidence.siblings == siblings.len(),
        l.bins_per_table > 0,
        0 <= group < l.k,
        is_tree(node, width, parent),
        artifact_of_tree(
            l,
            evidence.data@,
            siblings,
            evidence.top(group),
            listed_root(evidence.roots@, evidence.tree_offset + group),
            leaf,
            node,
            width,
            group,
        ),
        target_failures(evidence.group_targets(group), evidence.bin(group)) == 0,
        forall|d: int|
            0 <= d < siblings.len() ==> #[trigger] evidence.rows(group)[d] == sibling_row(
                siblings[d],
                group,
                ancestor(evidence.bin(group), (d + 1) as nat) as int,
            ),
    ensures
        node(0, evidence.bin(group)) == leaf(
            evidence.bin(group) as u32,
            evidence.content(group),
        ),
        evidence_of_tree(evidence, group, node, width),
{
    let bin = evidence.bin(group);
    let rows = evidence.rows(group);
    let levels = evidence.levels(group);
    let n = siblings.len();
    assert(levels == evidence.top(group)@.levels);
    assert(rows.len() == n);
    let b = bin as int;
    assert(node(0, b as nat) == leaf(b as u32, evidence.content(group)));
    assert forall|d: int, c: int|
        0 <= d < rows.len() && 0 <= c < MERKLE_ARITY && c != ancestor(bin, d as nat) % (
        MERKLE_ARITY as nat) implies #[trigger] rows[d].subrange(
        c * HASH_BYTES,
        c * HASH_BYTES + HASH_BYTES,
    ) == tree_children(node, d as nat, ancestor(bin, (d + 1) as nat))[c] by {
        let r = ancestor(bin, (d + 1) as nat) as int;
        lemma_ancestor_exists(bin, width, (d + 1) as nat);
        assert(rows[d] == sibling_row(siblings[d], group, r));
        assert(sibling_row(siblings[d], group, r).subrange(
            c * HASH_BYTES,
            c * HASH_BYTES + HASH_BYTES,
        ) == tree_children(node, d as nat, r as nat)[c]);
    }
    lemma_ancestor_exists(bin, width, evidence.path_height(group));
    assert(evidence.path_height(group) == n + levels.len() - 1);
}

proof fn lemma_group_evidence<
    K,
    G: Fn(u64, u8) -> (K, K),
    E: Fn(&K, &[u8], usize, usize) -> (Vec<Vec<u8>>, PhaseTimes),
>(
    evidence: TrialEvidence<'_>,
    l: TableLayout,
    dpf_ns: Seq<u8>,
    siblings: Seq<SiblingTable<'_>>,
    gen: G,
    eval: &E,
    pick: spec_fn(K) -> spec_fn(int) -> bool,
    leaf: spec_fn(u32, Seq<u8>) -> Seq<u8>,
    parent: spec_fn(Seq<Seq<u8>>) -> Seq<u8>,
    node: spec_fn(nat, nat) -> Seq<u8>,
    width: spec_fn(nat) -> nat,
    keys: MerkleKeys<K>,
    s0: MerkleServerRun,
    s1: MerkleServerRun,
    group: int,
)
    requires
        evidence.k == l.k,
        evidence.header_size == l.header_size,
        evidence.bins_per_table == l.bins_per_table,
        evidence.result_size == l.result_size,
        evidence.table_byte_size == l.table_byte_size,
        evidence.siblings == dpf_ns.len(),
        *evidence.targets == keys.targets,
        *evidence.outputs0 == s0.outputs,
        *evidence.outputs1 == s1.outputs,
        sibling_tables(siblings, l.k),
        siblings.len() == dpf_ns.len(),
        eval_selects(eval, pick),
        forall|d: int|
            0 <= d < siblings.len() ==> gen_splits(
                gen,
                (#[trigger] siblings[d]).layout.bins_per_table,
                dpf_ns[d],
                pick,
            ),
        keys_made(
            gen,
            evidence.level,
            evidence.trial_index,
            l.bins_per_table,
            l.k,
            dpf_ns,
            keys,
        ),
        served(keys.server0@, siblings, eval, s0),
        served(keys.server1@, siblings, eval, s1),
        l.bins_per_table > 0,
        0 <= group < l.k,
        is_tree(node, width, parent),
        artifact_of_tree(
            l,
            evidence.data@,
            siblings,
            evidence.top(group),
            listed_root(evidence.roots@, evidence.tree_offset + group),
            leaf,
            node,
            width,
            group,
        ),
    ensures
        node(0, evidence.bin(group)) == leaf(
            evidence.bin(group) as u32,
            evidence.content(group),
        ),
        evidence_of_tree(evidence, group, node, width),
{
    law_generated_targets_verify(
        evidence,
        gen,
        dpf_ns,
        keys.server0@,
        keys.server1@,
        group as usize,
    );
    let bin = evidence.bin(group);
    assert(bin < l.bins_per_table);
    assert forall|d: int| 0 <= d < siblings.len() implies #[trigger] evidence.rows(group)[d]
        == sibling_row(siblings[d], group, ancestor(bin, (d + 1) as nat) as int) by {
        lemma_ancestor_exists(bin, width, (d + 1) as nat);
        assert(width((d + 1) as nat) <= siblings[d].layout.bins_per_table);
        lemma_path_row(
            evidence,
            dpf_ns,
            siblings,
            gen,
            eval,
            pick,
            keys,
            s0,
            s1,
            d,
            group,
        );
    }
    lemma_evidence_from_files(evidence, l, siblings, leaf, parent, node, width, group);
}

/// A trial over the files of trees verifies without failure where `eval` answers with the
/// exclusive or of the rows that a key selects, and the two keys for a row differ in that row
/// alone.
pub proof fn law_honest_trial_verifies<
    K,
    G: Fn(u64, u8) -> (K, K),
    E: Fn(&K, &[u8], usize, usize) -> (Vec<Vec<u8>>, PhaseTimes),
    L: Fn(u32, &[u8]) -> Hash256,
    P: Fn(&Vec<Hash256>) -> Hash256,
>(
    level: Level,
    trial_index: usize,
    l: TableLayout,
    data: &[u8],
    siblings: Seq<SiblingTable<'_>>,
    dpf_ns: Seq<u8>,
    tree_offset: usize,
    tree_tops: &Vec<TreeTop>,
    roots: &Vec<Hash256>,
    gen: G,
    eval: &E,
    leaf_hash: L,
    parent_hash: P,
    pick: spec_fn(K) -> spec_fn(int) -> bool,
    leaf: spec_fn(u32, Seq<u8>) -> Seq<u8>,
    parent: spec_fn(Seq<Seq<u8>>) -> Seq<u8>,
    nodes: spec_fn(int) -> spec_fn(nat, nat) -> Seq<u8>,
    width: spec_fn(nat) -> nat,
    keys: MerkleKeys<K>,
    paths: Seq<Seq<Seq<u8>>>,
    report: MerkleReport,
)
    requires
        l.bins_per_table > 0,
        sibling_tables(siblings, l.k),
        siblings.len() == dpf_ns.len(),
        eval_selects(eval, pick),
        forall|d: int|
            0 <= d < siblings.len() ==> gen_splits(
                gen,
                (#[trigger] siblings[d]).layout.bins_per_table,
                dpf_ns[d],
                pick,
            ),
        computes_leaf(leaf_hash, leaf),
        computes_parent(parent_hash, parent),
        forall|g: int|
            0 <= g < l.k ==> is_tree(#[trigger] nodes(g), width, parent) && artifact_of_tree(
                l,
                data@,
                siblings,
                tree_tops@[tree_offset + g],
                listed_root(roots@, tree_offset + g),
                leaf,
                nodes(g),
                width,
                g,
            ),
        keys_made(gen, level, trial_index, l.bins_per_table, l.k, dpf_ns, keys),
        report_of(
            level,
            trial_index,
            l,
            tree_offset,
            data,
            siblings,
            tree_tops,
            roots,
            eval,
            leaf_hash,
            parent_hash,
            keys,
            paths,
            report,
        ),
    ensures
        report.verdict.failures == 0,
{
    let evidence = evidence_of(
        level,
        trial_index,
        l,
        tree_offset,
        data,
        &keys,
        &report.s0,
        &report.s1,
        tree_tops,
        roots,
    );
    assert forall|g: int| 0 <= g < paths.len() implies {
        &&& is_tree(#[trigger] nodes(g), width, parent)
        &&& nodes(g)(0, evidence.bin(g)) == leaf(evidence.bin(g) as u32, evidence.content(g))
        &&& evidence_of_tree(evidence, g, nodes(g), width)
    } by {
        lemma_group_evidence(
            evidence,
            l,
            dpf_ns,
            siblings,
            gen,
            eval,
            pick,
            leaf,
            parent,
            nodes(g),
            width,
            keys,
            report.s0,
            report.s1,
            g,
        );
    }
    law_trees_verify(
        evidence,
        leaf_hash,
        parent_hash,
        leaf,
        parent,
        nodes,
        width,
        paths,
    );
}

} // verus!
