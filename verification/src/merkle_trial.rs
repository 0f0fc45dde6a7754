//! One trial of the Merkle round, from the choice of the queries to the verdict.
use crate::bytes::Hash256;
use crate::kinds::{Level, MERKLE_ARITY, MERKLE_ROW_SIZE};
use crate::layout::TableLayout;
use crate::merkle::{
    generate_keys, process_server, summarize_merkle, MerkleKeys, MerkleServerRun, MerkleSummary,
    SiblingTable,
};
use crate::path::{verify_trial, TrialEvidence};
use crate::tally::Verdict;
use crate::timing::{elapsed_time, Mark, Phase, PhaseTimes};
use crate::tree::TreeTop;
use vstd::prelude::*;

#[allow(unused_imports)]
use crate::layout::law_layout_covers;
#[allow(unused_imports)]
use crate::merkle::{
    ancestor, domains_of, gen_accepts, keys_made, level_keys_made, levels_collected, levels_ran,
    merkle_summary, row_ran, rows_ran, served, server_ready, sibling_target, upload_bytes,
    RowRun,
};
#[allow(unused_imports)]
use crate::path::row_covers;
#[allow(unused_imports)]
use crate::random::target_of;
#[allow(unused_imports)]
use crate::timing::{clock_fits, clock_ready, measured_by};

verus! {

/// What a trial yields.
pub struct MerkleReport {
    pub keygen: u128,
    pub s0: MerkleServerRun,
    pub s1: MerkleServerRun,
    pub verdict: Verdict,
    pub verify_wall: u128,
    pub upload_per_server: usize,
    pub summary: MerkleSummary,
}

/// What a trial with the queries `keys` and the servers' work `s0` and `s1` is verified against.
pub open spec fn evidence_of<'a, K>(
    level: Level,
    trial_index: usize,
    l: TableLayout,
    tree_offset: usize,
    data: &'a [u8],
    keys: &'a MerkleKeys<K>,
    s0: &'a MerkleServerRun,
    s1: &'a MerkleServerRun,
    tree_tops: &'a Vec<TreeTop>,
    roots: &'a Vec<Hash256>,
) -> TrialEvidence<'a> {
    TrialEvidence {
        level,
        trial_index,
        k: l.k,
        tree_offset,
        siblings: keys.targets.len(),
        data,
        header_size: l.header_size,
        bins_per_table: l.bins_per_table,
        result_size: l.result_size,
        table_byte_size: l.table_byte_size,
        targets: &keys.targets,
        outputs0: &s0.outputs,
        outputs1: &s1.outputs,
        tree_tops,
        roots,
    }
}

/// One key per sibling table and group.
pub open spec fn one_key_each<K>(keys: Seq<Vec<K>>, siblings: nat, k: usize) -> bool {
    &&& keys.len() == siblings
    &&& forall|d: int| 0 <= d < siblings ==> (#[trigger] keys[d])@.len() == k
}

/// One whole row per sibling table and group.
pub open spec fn one_row_each(outputs: Seq<Vec<Vec<u8>>>, siblings: nat, k: usize) -> bool {
    &&& outputs.len() == siblings
    &&& forall|d: int| 0 <= d < siblings ==> (#[trigger] outputs[d])@.len() == k
    &&& forall|d: int, g: int|
        0 <= d < siblings && 0 <= g < k ==> (#[trigger] outputs[d]@[g])@.len() == MERKLE_ROW_SIZE
}

/// `report` comes of a trial with the queries `keys`, which each server answered by `eval`, and
/// `paths` holds the hashes that the verification made.
pub open spec fn report_of<
    K,
    E: Fn(&K, &[u8], usize, usize) -> (Vec<Vec<u8>>, PhaseTimes),
    L: Fn(u32, &[u8]) -> Hash256,
    P: Fn(&Vec<Hash256>) -> Hash256,
>(
    level: Level,
    trial_index: usize,
    l: TableLayout,
    tree_offset: usize,
    data: &[u8],
    siblings: Seq<SiblingTable<'_>>,
    tree_tops: &Vec<TreeTop>,
    roots: &Vec<Hash256>,
    eval: &E,
    leaf_hash: L,
    parent_hash: P,
    keys: MerkleKeys<K>,
    paths: Seq<Seq<Seq<u8>>>,
    report: MerkleReport,
) -> bool {
    let evidence = evidence_of(
        level,
        trial_index,
        l,
        tree_offset,
        data,
        &keys,
        &report.s0,
        &report.s1,
        tree_tops,
        roots,
    );
    &&& served(keys.server0@, siblings, eval, report.s0)
    &&& served(keys.server1@, siblings, eval, report.s1)
    &&& evidence.paths_hashed(leaf_hash, parent_hash, paths)
    &&& paths.len() == l.k
    &&& report.verdict.failures == evidence.trial_failures(paths)
    &&& report.verdict.checksum == evidence.trial_checksum(paths)
    &&& report.upload_per_server == keys.upload_per_server
    &&& report.summary == merkle_summary(
        l.k,
        evidence.siblings,
        report.keygen,
        report.s0,
        report.s1,
        report.verdict,
        report.verify_wall,
    )
}

/// The rows that `eval` returns have the size that it is asked for.
pub open spec fn whole_rows<K, E: Fn(&K, &[u8], usize, usize) -> (Vec<Vec<u8>>, PhaseTimes)>(
    eval: &E,
) -> bool {
    forall|key: K, t: &[u8], bins: usize, rows: Vec<Vec<u8>>, times: PhaseTimes|
        #[trigger] call_ensures(*eval, (&key, t, bins, MERKLE_ROW_SIZE), (rows, times))
            && rows@.len() >= 1 ==> rows@[0]@.len() == MERKLE_ROW_SIZE
}

/// `clock` measured every time of `report`, over the phase that it is the time of.
pub open spec fn times_measured<T: Fn(Mark) -> u128>(clock: T, report: MerkleReport) -> bool {
    &&& measured_by(clock, Phase::Keys, report.keygen)
    &&& measured_by(clock, Phase::Server0, report.s0.wall)
    &&& measured_by(clock, Phase::Server1, report.s1.wall)
    &&& measured_by(clock, Phase::Verify, report.verify_wall)
}

proof fn lemma_served_rows<K, E: Fn(&K, &[u8], usize, usize) -> (Vec<Vec<u8>>, PhaseTimes)>(
    keys: Seq<Vec<K>>,
    siblings: Seq<SiblingTable<'_>>,
    eval: &E,
    run: MerkleServerRun,
    k: usize,
)
    requires
        one_key_each(keys, siblings.len(), k),
        whole_rows(eval),
        served(keys, siblings, eval, run),
    ensures
        one_row_each(run.outputs@, siblings.len(), k),
{
    let levels = choose|levels: Seq<Seq<RowRun>>| #[trigger]
        levels_ran(keys, siblings, eval, levels) && levels.len() == siblings.len()
            && levels_collected(levels, run);
    assert forall|d: int| 0 <= d < siblings.len() implies (#[trigger] run.outputs@[d])@.len()
        == k by {
        assert(rows_ran(keys[d]@, siblings[d], eval, levels[d]));
        assert(keys[d]@.len() == k);
    }
    assert forall|d: int, g: int| 0 <= d < siblings.len() && 0 <= g < k implies (#[trigger]
    run.outputs@[d]@[g])@.len() == MERKLE_ROW_SIZE by {
        assert(rows_ran(keys[d]@, siblings[d], eval, levels[d]));
        assert(keys[d]@.len() == k);
        assert(run.outputs@[d]@ == levels[d].map_values(|r: RowRun| r.row));
        assert(row_ran(
            keys[d]@[g],
            siblings[d].table(g),
            siblings[d].layout.bins_per_table,
            eval,
            levels[d][g],
        ));
    }
}

proof fn lemma_ancestor_bound(bin: nat, height: nat)
    ensures
        ancestor(bin, height) <= bin,
    decreases height,
{
    if height > 0 {
        lemma_ancestor_bound(bin, (height - 1) as nat);
    }
}

proof fn lemma_evidence_complete<K, G: Fn(u64, u8) -> (K, K)>(
    evidence: TrialEvidence<'_>,
    l: TableLayout,
    gen: G,
    dpf_ns: Seq<u8>,
    keys: MerkleKeys<K>,
    group: int,
)
    requires
        l.wf(),
        evidence.data@.len() == l.file_bytes,
        evidence.k == l.k,
        evidence.header_size == l.header_size,
        evidence.bins_per_table == l.bins_per_table,
        evidence.result_size == l.result_size,
        evidence.table_byte_size == l.table_byte_size,
        evidence.siblings == dpf_ns.len(),
        *evidence.targets == keys.targets,
        keys_made(
            gen,
            evidence.level,
            evidence.trial_index,
            l.bins_per_table,
            l.k,
            dpf_ns,
            keys,
        ),
        one_row_each(evidence.outputs0@, dpf_ns.len(), l.k),
        one_row_each(evidence.outputs1@, dpf_ns.len(), l.k),
        evidence.tree_offset + l.k <= evidence.tree_tops@.len(),
        0 <= group < l.k,
        l.bins_per_table > 0,
    ensures
        evidence.group_complete(group),
{
    law_layout_covers(l, group, evidence.bin(group) as int);
    assert forall|d: int| 0 <= d < evidence.siblings implies {
        &&& group < (#[trigger] evidence.targets@[d])@.len()
        &&& group < evidence.outputs0@[d]@.len()
        &&& group < evidence.outputs1@[d]@.len()
        &&& evidence.outputs0@[d]@[group]@.len() == evidence.outputs1@[d]@[group]@.len()
        &&& row_covers(
            evidence.outputs0@[d]@[group]@.len(),
            (ancestor(evidence.bin(group), d as nat) % (MERKLE_ARITY as nat)) as int,
        )
    } by {
        assert(level_keys_made(
            gen,
            evidence.level,
            evidence.trial_index,
            l.bins_per_table,
            l.k,
            d as nat,
            dpf_ns[d],
            keys.targets@[d]@,
            keys.server0@[d]@,
            keys.server1@[d]@,
        ));
        assert(evidence.outputs0@[d]@[group]@.len() == MERKLE_ROW_SIZE);
        assert(evidence.outputs1@[d]@[group]@.len() == MERKLE_ROW_SIZE);
    }
}

/// Runs one trial: picks the queries, has `gen` make the keys and `eval` answer those of each
/// server, and verifies the path of every group's bin. `domain` gives the domain of the keys for a
/// number of bins, `leaf_hash` hashes a bin, `parent_hash` the hashes of a node's children, and
/// `clock` tells the time. A trial that only warms up yields nothing.
pub fn run_trial<
    K: Sync,
    N: Fn(usize) -> u8,
    G: Fn(u64, u8) -> (K, K),
    E: Fn(&K, &[u8], usize, usize) -> (Vec<Vec<u8>>, PhaseTimes) + Sync,
    L: Fn(u32, &[u8]) -> Hash256,
    P: Fn(&Vec<Hash256>) -> Hash256,
    T: Fn(Mark) -> u128,
>(
    level: Level,
    trial_index: usize,
    measured: bool,
    l: &TableLayout,
    data: &[u8],
    siblings: &Vec<SiblingTable<'_>>,
    tree_offset: usize,
    tree_tops: &Vec<TreeTop>,
    roots: &Vec<Hash256>,
    domain: N,
    gen: G,
    eval: E,
    leaf_hash: L,
    parent_hash: P,
    clock: T,
) -> (r: Option<MerkleReport>)
    requires
        l.wf(),
        data@.len() == l.file_bytes,
        l.k > 0 ==> l.bins_per_table > 0,
        siblings@.len() * l.k * MERKLE_ROW_SIZE <= usize::MAX,
        siblings@.len() + 2 <= usize::MAX,
        l.k * (siblings@.len() + 2) <= usize::MAX,
        tree_offset + l.k <= tree_tops@.len(),
        forall|d: int|
            0 <= d < siblings@.len() ==> call_requires(
                domain,
                ((#[trigger] siblings@[d]).layout.bins_per_table,),
            ),
        forall|dpf_ns: Seq<u8>| #[trigger]
            domains_of(domain, siblings@, dpf_ns) ==> upload_bytes(l.k, dpf_ns) <= usize::MAX,
        forall|dpf_ns: Seq<u8>, alpha: u64, d: int|
            domains_of(domain, siblings@, dpf_ns) && alpha < l.bins_per_table && 0 <= d
                < dpf_ns.len() ==> #[trigger] call_requires(gen, (alpha, dpf_ns[d])),
        forall|d: int|
            0 <= d < siblings@.len() ==> (#[trigger] siblings@[d]).wf() && l.k
                <= siblings@[d].layout.k,
        forall|keys: Seq<Vec<K>>|
            one_key_each(keys, siblings@.len(), l.k) ==> #[trigger] server_ready(
                keys,
                siblings@,
                &eval,
            ),
        whole_rows(&eval),
        forall|bin: u32, s: &[u8]| #[trigger] call_requires(leaf_hash, (bin, s)),
        forall|v: Vec<Hash256>|
            v@.len() == MERKLE_ARITY ==> #[trigger] call_requires(parent_hash, (&v,)),
        clock_ready(clock),
        clock_fits(clock, 4),
    ensures
        r is Some <==> measured,
        r matches Some(report) ==> exists|
            dpf_ns: Seq<u8>,
            keys: MerkleKeys<K>,
            paths: Seq<Seq<Seq<u8>>>,
        |
            #[trigger] domains_of(domain, siblings@, dpf_ns) && keys_made(
                gen,
                level,
                trial_index,
                l.bins_per_table,
                l.k,
                dpf_ns,
                keys,
            ) && #[trigger] report_of(
                level,
                trial_index,
                *l,
                tree_offset,
                data,
                siblings@,
                tree_tops,
                roots,
                &eval,
                leaf_hash,
                parent_hash,
                keys,
                paths,
                report,
            ),
        r matches Some(report) ==> times_measured(clock, report),
{
    let before_keys: u128 = clock(Mark::Start(Phase::Keys));
    assert forall|dpf_ns: Seq<u8>, d: int|
        domains_of(domain, siblings@, dpf_ns) && 0 <= d < dpf_ns.len() implies gen_accepts(
        gen,
        level,
        trial_index,
        l.bins_per_table,
        l.k,
        d as nat,
        #[trigger] dpf_ns[d],
    ) by {
        assert forall|g: usize| g < l.k implies #[trigger] call_requires(
            gen,
            (
                sibling_target(trial_index, g, l.bins_per_table, level, d as nat) as u64,
                dpf_ns[d],
            ),
        ) by {
            lemma_ancestor_bound(
                target_of(trial_index, g, l.bins_per_table, level),
                (d + 1) as nat,
            );
        }
    }
    let keys = generate_keys(
        level,
        trial_index,
        l.bins_per_table,
        l.k,
        siblings,
        &domain,
        &gen,
    );
    let after_keys: u128 = clock(Mark::End(Phase::Keys));
    let ghost dpf_ns = choose|dpf_ns: Seq<u8>| #[trigger]
        domains_of(domain, siblings@, dpf_ns) && keys_made(
            gen,
            level,
            trial_index,
            l.bins_per_table,
            l.k,
            dpf_ns,
            keys,
        );
    let keygen: u128 = elapsed_time(before_keys, after_keys);
    assert(one_key_each(keys.server0@, dpf_ns.len(), l.k)
        && one_key_each(keys.server1@, dpf_ns.len(), l.k)) by {
        assert forall|d: int| 0 <= d < dpf_ns.len() implies (#[trigger] keys.server0@[d])@.len()
            == l.k by {
            assert(keys.targets@[d]@.len() == l.k);
        }
        assert forall|d: int| 0 <= d < dpf_ns.len() implies (#[trigger] keys.server1@[d])@.len()
            == l.k by {
            assert(keys.targets@[d]@.len() == l.k);
        }
    }
    let s0 = process_server(&keys.server0, siblings, &eval, Phase::Server0, &clock);
    let s1 = process_server(&keys.server1, siblings, &eval, Phase::Server1, &clock);
    proof {
        lemma_served_rows(keys.server0@, siblings@, &eval, s0, l.k);
        lemma_served_rows(keys.server1@, siblings@, &eval, s1, l.k);
    }
    let before_verify: u128 = clock(Mark::Start(Phase::Verify));
    let sibling_levels: usize = siblings.len();
    let evidence = TrialEvidence {
        level,
        trial_index,
        k: l.k,
        tree_offset,
        siblings: sibling_levels,
        data,
        header_size: l.header_size,
        bins_per_table: l.bins_per_table,
        result_size: l.result_size,
        table_byte_size: l.table_byte_size,
        targets: &keys.targets,
        outputs0: &s0.outputs,
        outputs1: &s1.outputs,
        tree_tops,
        roots,
    };
    assert forall|g: int| 0 <= g < evidence.k implies #[trigger] evidence.group_complete(g) by {
        lemma_evidence_complete(evidence, *l, gen, dpf_ns, keys, g);
    }
    let verdict = verify_trial(&evidence, leaf_hash, parent_hash);
    let after_verify: u128 = clock(Mark::End(Phase::Verify));
    let verify_wall: u128 = elapsed_time(before_verify, after_verify);
    if !measured {
        return None;
    }
    assert(call_ensures(clock, (Mark::Start(Phase::Keys),), before_keys));
    assert(call_ensures(clock, (Mark::End(Phase::Keys),), after_keys));
    assert(call_ensures(clock, (Mark::Start(Phase::Verify),), before_verify));
    assert(call_ensures(clock, (Mark::End(Phase::Verify),), after_verify));
    let summary = summarize_merkle(l.k, sibling_levels, keygen, &s0, &s1, &verdict, verify_wall);
    let ghost paths = choose|paths: Seq<Seq<Seq<u8>>>| #[trigger]
        evidence.paths_hashed(leaf_hash, parent_hash, paths) && paths.len() == evidence.k
            && verdict.failures == evidence.trial_failures(paths) && verdict.checksum
            == evidence.trial_checksum(paths);
    let report = MerkleReport {
        keygen,
        s0,
        s1,
        verdict,
        verify_wall,
        upload_per_server: keys.upload_per_server,
        summary,
    };
    let out = Some(report);
    assert(report_of(
        level,
        trial_index,
        *l,
        tree_offset,
        data,
        siblings@,
        tree_tops,
        roots,
        &eval,
        leaf_hash,
        parent_hash,
        keys,
        paths,
        out->Some_0,
    ));
    out
}

} // verus!
