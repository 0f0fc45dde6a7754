//! What the Merkle round queries, sends, answers and reports, told without the functions that its
//! contracts are written with.
#[allow(unused_imports)]
use crate::bytes::{checksum, xor_all, Hash256};
#[allow(unused_imports)]
use crate::dpf::key_wire_size;
use crate::kinds::Level;
use crate::layout::TableLayout;
#[allow(unused_imports)]
use crate::merkle::{
    artifact_size, domains_of, keys_made, level_keys_made, levels_checksum, levels_collected,
    levels_dpf_time, levels_fetch_time, levels_ran, merkle_summary, row_dpf_times, row_fetch_times,
    row_ran, rows_ran, served, sibling_bytes, sibling_target, upload_bytes, MerkleKeys,
    MerkleServerRun, RowRun, SiblingTable,
};
#[allow(unused_imports)]
use crate::merkle_trial::{report_of, times_measured, MerkleReport};
#[allow(unused_imports)]
use crate::path::TrialEvidence;
#[allow(unused_imports)]
use crate::path_laws::law_ancestor_is_quotient;
#[allow(unused_imports)]
use crate::random::target_of;
use crate::tally::Verdict;
#[allow(unused_imports)]
use crate::timing::{measured_by, total_time, Phase};
use crate::timing::{Mark, PhaseTimes};
use crate::tree::TreeTop;
#[allow(unused_imports)]
use crate::verify_laws::law_trial_takes_in_all_groups;
use vstd::arithmetic::power::pow;
use vstd::prelude::*;

verus! {

/// The keys of a trial: in each sibling table every group queries the row above its bin, whose
/// number is the bin's divided by eight to the power of the table's height; the keys of both
/// servers for a row were made together.
pub proof fn law_keys_of_merkle_trial<K, F: Fn(u64, u8) -> (K, K)>(
    gen: F,
    level: Level,
    trial_index: usize,
    bins_per_table: usize,
    k: usize,
    dpf_ns: Seq<u8>,
    keys: MerkleKeys<K>,
    d: int,
    g: int,
)
    requires
        keys_made(gen, level, trial_index, bins_per_table, k, dpf_ns, keys),
        0 <= d < dpf_ns.len(),
        0 <= g < k,
    ensures
        keys.targets@.len() == dpf_ns.len(),
        keys.server0@.len() == dpf_ns.len(),
        keys.server1@.len() == dpf_ns.len(),
        keys.targets@[d]@.len() == k,
        keys.server0@[d]@.len() == k,
        keys.server1@[d]@.len() == k,
        keys.targets@[d]@[g] == target_of(trial_index, g as usize, bins_per_table, level) as int
            / pow(8, (d + 1) as nat),
        call_ensures(
            gen,
            (keys.targets@[d]@[g] as u64, dpf_ns[d]),
            (keys.server0@[d]@[g], keys.server1@[d]@[g]),
        ),
{
    assert(level_keys_made(
        gen,
        level,
        trial_index,
        bins_per_table,
        k,
        d as nat,
        dpf_ns[d],
        keys.targets@[d]@,
        keys.server0@[d]@,
        keys.server1@[d]@,
    ));
    let i = g as usize;
    assert(keys.targets@[d]@[i as int] == sibling_target(
        trial_index,
        i,
        bins_per_table,
        level,
        d as nat,
    ));
    let a = keys.server0@[d]@[i as int];
    assert(call_ensures(
        gen,
        (keys.targets@[d]@[i as int] as u64, dpf_ns[d]),
        (a, keys.server1@[d]@[i as int]),
    ));
    law_ancestor_is_quotient(
        target_of(trial_index, i, bins_per_table, level),
        (d + 1) as nat,
    );
}

/// A server is sent one key per group for each sibling table.
pub proof fn law_upload_of_keys<K, F: Fn(u64, u8) -> (K, K)>(
    gen: F,
    level: Level,
    trial_index: usize,
    bins_per_table: usize,
    k: usize,
    dpf_ns: Seq<u8>,
    keys: MerkleKeys<K>,
)
    requires
        keys_made(gen, level, trial_index, bins_per_table, k, dpf_ns, keys),
    ensures
        keys.upload_per_server == dpf_ns.fold_left(
            0int,
            |acc: int, dpf_n: u8| acc + k * key_wire_size(dpf_n),
        ),
{
    lemma_upload_fold(k, dpf_ns);
}

proof fn lemma_upload_fold(k: usize, dpf_ns: Seq<u8>)
    ensures
        upload_bytes(k, dpf_ns) == dpf_ns.fold_left(
            0int,
            |acc: int, dpf_n: u8| acc + k * key_wire_size(dpf_n),
        ),
    decreases dpf_ns.len(),
{
    if dpf_ns.len() > 0 {
        lemma_upload_fold(k, dpf_ns.drop_last());
    }
}

/// There is one domain per sibling table, the one that belongs to its number of bins.
pub proof fn law_domains_of_tables<N: Fn(usize) -> u8>(
    domain: N,
    siblings: Seq<SiblingTable<'_>>,
    dpf_ns: Seq<u8>,
    d: int,
)
    requires
        domains_of(domain, siblings, dpf_ns),
        0 <= d < siblings.len(),
    ensures
        dpf_ns.len() == siblings.len(),
        call_ensures(domain, (siblings[d].layout.bins_per_table,), dpf_ns[d]),
{
    let n = dpf_ns[d];
    assert(call_ensures(domain, (siblings[d].layout.bins_per_table,), n));
}

/// A server's answers: there is one row per sibling table and key, the times that the evaluation
/// took for each of them are added up, and the checksum takes in every row. `work` holds the work
/// on each of them.
pub proof fn law_rows_of_server<K, E: Fn(&K, &[u8], usize, usize) -> (Vec<Vec<u8>>, PhaseTimes)>(
    keys: Seq<Vec<K>>,
    siblings: Seq<SiblingTable<'_>>,
    eval: &E,
    run: MerkleServerRun,
) -> (work: Seq<Seq<RowRun>>)
    requires
        served(keys, siblings, eval, run),
    ensures
        run.outputs@.len() == siblings.len(),
        work.len() == siblings.len(),
        forall|d: int|
            0 <= d < siblings.len() ==> (#[trigger] run.outputs@[d])@.len() == keys[d]@.len()
                && work[d].len() == keys[d]@.len(),
        forall|d: int, g: int|
            0 <= d < siblings.len() && 0 <= g < keys[d]@.len() ==> {
                let l = siblings[d].layout;
                let start = l.header_size + g * l.table_byte_size;
                &&& #[trigger] run.outputs@[d]@[g] == work[d][g].row
                &&& row_ran(
                    keys[d]@[g],
                    siblings[d].data@.subrange(start, start + l.table_byte_size),
                    l.bins_per_table,
                    eval,
                    work[d][g],
                )
            },
        run.dpf_sum == work.fold_left(
            0int,
            |acc: int, rows: Seq<RowRun>|
                acc + rows.fold_left(0int, |sum: int, r: RowRun| sum + r.times.dpf_eval),
        ),
        run.fetch_sum == work.fold_left(
            0int,
            |acc: int, rows: Seq<RowRun>|
                acc + rows.fold_left(0int, |sum: int, r: RowRun| sum + r.times.fetch_xor),
        ),
        run.checksum == work.fold_left(
            0u64,
            |acc: u64, rows: Seq<RowRun>|
                acc ^ rows.fold_left(0u64, |sum: u64, r: RowRun| sum ^ r.checksum),
        ),
{
    let work = choose|levels: Seq<Seq<RowRun>>| #[trigger]
        levels_ran(keys, siblings, eval, levels) && levels.len() == siblings.len()
            && levels_collected(levels, run);
    assert forall|d: int| 0 <= d < siblings.len() implies (#[trigger] run.outputs@[d])@.len()
        == keys[d]@.len() && work[d].len() == keys[d]@.len() by {
        assert(rows_ran(keys[d]@, siblings[d], eval, work[d]));
        assert(run.outputs@[d]@ == work[d].map_values(|r: RowRun| r.row));
    }
    assert forall|d: int, g: int| 0 <= d < siblings.len() && 0 <= g < keys[d]@.len() implies {
        let l = siblings[d].layout;
        let start = l.header_size + g * l.table_byte_size;
        &&& #[trigger] run.outputs@[d]@[g] == work[d][g].row
        &&& row_ran(
            keys[d]@[g],
            siblings[d].data@.subrange(start, start + l.table_byte_size),
            l.bins_per_table,
            eval,
            work[d][g],
        )
    } by {
        assert(rows_ran(keys[d]@, siblings[d], eval, work[d]));
        assert(run.outputs@[d]@ == work[d].map_values(|r: RowRun| r.row));
        assert(row_ran(
            keys[d]@[g],
            siblings[d].table(g),
            siblings[d].layout.bins_per_table,
            eval,
            work[d][g],
        ));
    }
    lemma_levels_add_up(work);
    work
}

/// A server's row for a group is the first that the evaluation gives for the group's key over its
/// table, asked for rows of 256 bytes.
pub proof fn law_row_of_group<K, E: Fn(&K, &[u8], usize, usize) -> (Vec<Vec<u8>>, PhaseTimes)>(
    key: K,
    table: Seq<u8>,
    bins_per_table: usize,
    eval: &E,
    run: RowRun,
) -> (r: (&'static [u8], Vec<Vec<u8>>))
    requires
        row_ran(key, table, bins_per_table, eval, run),
    ensures
        r.0@ == table,
        call_ensures(*eval, (&key, r.0, bins_per_table, 256), (r.1, run.times)),
        r.1@.len() >= 1,
        r.1@[0] == run.row,
        run.checksum == checksum(run.row@),
{
    let (t, rows) = choose|t: &[u8], rows: Vec<Vec<u8>>|
        t@ == table && #[trigger] call_ensures(
            *eval,
            (&key, t, bins_per_table, 256),
            (rows, run.times),
        ) && rows@.len() >= 1 && rows@[0] == run.row;
    (t, rows)
}

proof fn lemma_rows_add_up(rows: Seq<RowRun>)
    ensures
        total_time(row_dpf_times(rows)) == rows.fold_left(
            0int,
            |sum: int, r: RowRun| sum + r.times.dpf_eval,
        ),
        total_time(row_fetch_times(rows)) == rows.fold_left(
            0int,
            |sum: int, r: RowRun| sum + r.times.fetch_xor,
        ),
        xor_all(rows.map_values(|r: RowRun| r.checksum)) == rows.fold_left(
            0u64,
            |sum: u64, r: RowRun| sum ^ r.checksum,
        ),
    decreases rows.len(),
{
    if rows.len() > 0 {
        let rest = rows.drop_last();
        lemma_rows_add_up(rest);
        assert(row_dpf_times(rows).drop_last() =~= row_dpf_times(rest));
        assert(row_fetch_times(rows).drop_last() =~= row_fetch_times(rest));
        assert(rows.map_values(|r: RowRun| r.checksum).drop_last() =~= rest.map_values(
            |r: RowRun| r.checksum,
        ));
    }
}

proof fn lemma_levels_add_up(levels: Seq<Seq<RowRun>>)
    ensures
        levels_dpf_time(levels) == levels.fold_left(
            0int,
            |acc: int, rows: Seq<RowRun>|
                acc + rows.fold_left(0int, |sum: int, r: RowRun| sum + r.times.dpf_eval),
        ),
        levels_fetch_time(levels) == levels.fold_left(
            0int,
            |acc: int, rows: Seq<RowRun>|
                acc + rows.fold_left(0int, |sum: int, r: RowRun| sum + r.times.fetch_xor),
        ),
        levels_checksum(levels) == levels.fold_left(
            0u64,
            |acc: u64, rows: Seq<RowRun>|
                acc ^ rows.fold_left(0u64, |sum: u64, r: RowRun| sum ^ r.checksum),
        ),
    decreases levels.len(),
{
    if levels.len() > 0 {
        lemma_levels_add_up(levels.drop_last());
        lemma_rows_add_up(levels.last());
    }
}

/// The sizes and times of a trial: each group gets one row of 256 bytes for each sibling table, the
/// servers work side by side, and making keys and verifying come on top.
pub proof fn law_summary_of_merkle_round(
    k: usize,
    siblings: usize,
    keygen: u128,
    s0: MerkleServerRun,
    s1: MerkleServerRun,
    verdict: Verdict,
    verify_wall: u128,
)
    requires
        siblings * k * 256 <= usize::MAX,
        keygen + s0.wall + s1.wall + verify_wall <= u128::MAX,
    ensures
        ({
            let r = merkle_summary(k, siblings, keygen, s0, s1, verdict, verify_wall);
            &&& r.server_parallel == (if s0.wall < s1.wall {
                s1.wall
            } else {
                s0.wall
            })
            &&& r.total_parallel == keygen + r.server_parallel + verify_wall
            &&& r.verified_groups == k
            &&& r.download_per_server == siblings * k * 256
            &&& r.checksum == s0.checksum ^ s1.checksum ^ verdict.checksum
        }),
{
    assert(0 <= siblings * k) by (nonlinear_arith);
}

/// The report of a trial: its failures and its checksum take in those of all groups, verified
/// against the files of the artifact, the rows that were queried, and the answers of both servers.
pub proof fn law_report_of_merkle_trial<
    K,
    E: Fn(&K, &[u8], usize, usize) -> (Vec<Vec<u8>>, PhaseTimes),
    L: Fn(u32, &[u8]) -> Hash256,
    P: Fn(&Vec<Hash256>) -> Hash256,
>(
    level: Level,
    trial_index: usize,
    l: TableLayout,
    tree_offset: usize,
    data: &[u8],
    siblings: Seq<SiblingTable<'_>>,
    tree_tops: &Vec<TreeTop>,
    roots: &Vec<Hash256>,
    eval: &E,
    leaf_hash: L,
    parent_hash: P,
    keys: MerkleKeys<K>,
    paths: Seq<Seq<Seq<u8>>>,
    report: MerkleReport,
)
    requires
        report_of(
            level,
            trial_index,
            l,
            tree_offset,
            data,
            siblings,
            tree_tops,
            roots,
            eval,
            leaf_hash,
            parent_hash,
            keys,
            paths,
            report,
        ),
    ensures
        ({
            let evidence = TrialEvidence {
                level,
                trial_index,
                k: l.k,
                tree_offset,
                siblings: keys.targets.len(),
                data,
                header_size: l.header_size,
                bins_per_table: l.bins_per_table,
                result_size: l.result_size,
                table_byte_size: l.table_byte_size,
                targets: &keys.targets,
                outputs0: &report.s0.outputs,
                outputs1: &report.s1.outputs,
                tree_tops,
                roots,
            };
            &&& served(keys.server0@, siblings, eval, report.s0)
            &&& served(keys.server1@, siblings, eval, report.s1)
            &&& paths.len() == l.k
            &&& forall|g: int|
                0 <= g < l.k ==> evidence.path_hashed(
                    g,
                    leaf_hash,
                    parent_hash,
                    #[trigger] paths[g],
                )
            &&& report.verdict.failures == Seq::new(l.k as nat, |g: int| g).fold_left(
                0int,
                |acc: int, g: int| acc + evidence.group_failures(g, paths[g]),
            )
            &&& report.verdict.checksum == Seq::new(l.k as nat, |g: int| g).fold_left(
                0u64,
                |acc: u64, g: int| acc ^ evidence.group_checksum(g, paths[g]),
            )
            &&& report.upload_per_server == keys.upload_per_server
            &&& report.summary == merkle_summary(
                l.k,
                keys.targets.len(),
                report.keygen,
                report.s0,
                report.s1,
                report.verdict,
                report.verify_wall,
            )
        }),
{
    let evidence = TrialEvidence {
        level,
        trial_index,
        k: l.k,
        tree_offset,
        siblings: keys.targets.len(),
        data,
        header_size: l.header_size,
        bins_per_table: l.bins_per_table,
        result_size: l.result_size,
        table_byte_size: l.table_byte_size,
        targets: &keys.targets,
        outputs0: &report.s0.outputs,
        outputs1: &report.s1.outputs,
        tree_tops,
        roots,
    };
    law_trial_takes_in_all_groups(evidence, paths);
}

/// The bytes of an artifact: those of its file of tables, of all its sibling tables, and of its
/// tree tops.
pub proof fn law_bytes_of_artifact(
    data: TableLayout,
    siblings: Seq<TableLayout>,
    tree_top_bytes: usize,
)
    requires
        data.file_bytes + sibling_bytes(siblings) + tree_top_bytes <= usize::MAX,
    ensures
        sibling_bytes(siblings) == siblings.fold_left(
            0int,
            |acc: int, l: TableLayout| acc + l.file_bytes,
        ),
        artifact_size(data, siblings, tree_top_bytes).sibling_bytes_total == sibling_bytes(
            siblings,
        ),
        artifact_size(data, siblings, tree_top_bytes).file_bytes == data.file_bytes
            + sibling_bytes(siblings) + tree_top_bytes,
{
    lemma_sibling_bytes_fold(siblings);
}

proof fn lemma_sibling_bytes_fold(siblings: Seq<TableLayout>)
    ensures
        sibling_bytes(siblings) == siblings.fold_left(
            0int,
            |acc: int, l: TableLayout| acc + l.file_bytes,
        ),
    decreases siblings.len(),
{
    if siblings.len() > 0 {
        lemma_sibling_bytes_fold(siblings.drop_last());
    }
}

/// The times of a trial were measured, each over the phase that it is the time of.
pub proof fn law_times_of_merkle_trial<T: Fn(Mark) -> u128>(clock: T, report: MerkleReport)
    requires
        times_measured(clock, report),
    ensures
        measured_by(clock, Phase::Keys, report.keygen),
        measured_by(clock, Phase::Server0, report.s0.wall),
        measured_by(clock, Phase::Server1, report.s1.wall),
        measured_by(clock, Phase::Verify, report.verify_wall),
{
}

} // verus!
