//! One trial of the two-server round, from the choice of the queries to the verdict.
use crate::dpf::{
    generate_keys, process_server, summarize_round, verify_outputs, RoundSummary, ServerRun,
    TrialKeys,
};
use crate::kinds::Level;
use crate::layout::TableLayout;
use crate::random::trial_seed;
use crate::tally::Verdict;
use crate::timing::{elapsed_time, Mark, Phase, PhaseTimes};
use vstd::prelude::*;

#[allow(unused_imports)]
use crate::dpf::{
    answer, collected, combined_rows, expected_rows, group_answered, group_ran, groups_ran,
    keys_made, law_honest_servers_verify, law_queries_lie_in_file, law_targets_are_bins,
    round_sizes_fit, round_summary, served, server_ready, table_rows, target,
    GroupOutput, GroupRun,
};
#[allow(unused_imports)]
use crate::layout::{bin_start, entry_at, law_bin_is_table_entry, lemma_table_in_file};
#[allow(unused_imports)]
use crate::random::dpf_seed;
#[allow(unused_imports)]
use crate::select::select_xor;
#[allow(unused_imports)]
use crate::tally::{mismatches, rows_checksum};
#[allow(unused_imports)]
use crate::timing::{clock_fits, clock_ready, measured_by};

verus! {

/// What a trial yields.
pub struct RoundReport {
    pub keygen: u128,
    pub s0: ServerRun,
    pub s1: ServerRun,
    pub verdict: Verdict,
    pub verify_wall: u128,
    pub summary: RoundSummary,
}

/// `verdict` is that on the answers of both servers to the queries for `targets`.
pub open spec fn judged(
    l: TableLayout,
    data: Seq<u8>,
    targets: Seq<(u64, u64)>,
    s0: ServerRun,
    s1: ServerRun,
    verdict: Verdict,
) -> bool {
    &&& verdict.failures == mismatches(
        combined_rows(s0.outputs@, s1.outputs@, targets.len()),
        expected_rows(targets, data, l.header_size, l.result_size, l.table_byte_size),
    )
    &&& verdict.checksum == rows_checksum(
        combined_rows(s0.outputs@, s1.outputs@, targets.len()),
    )
}

/// `report` comes of a trial with the queries `keys`, which each server answered by the evaluation
/// of the level.
pub open spec fn report_of<
    K,
    I: Fn(&K, &K, &[u8], usize) -> (Vec<u8>, Vec<u8>, PhaseTimes),
    C: Fn(&K, &K, &[u8], usize) -> (Vec<Vec<u8>>, PhaseTimes),
>(
    level: Level,
    l: TableLayout,
    data: Seq<u8>,
    cuckoo_num_hashes: usize,
    dpf_n: u8,
    index_eval: I,
    chunk_eval: C,
    keys: TrialKeys<K>,
    report: RoundReport,
) -> bool {
    &&& served(level, keys.server0@, data, l, index_eval, chunk_eval, report.s0)
    &&& served(level, keys.server1@, data, l, index_eval, chunk_eval, report.s1)
    &&& judged(l, data, keys.targets@, report.s0, report.s1, report.verdict)
    &&& report.summary == round_summary(
        l,
        cuckoo_num_hashes,
        dpf_n,
        report.keygen,
        report.s0,
        report.s1,
        report.verdict,
        report.verify_wall,
    )
}

/// `clock` measured every time of `report`, over the phase that it is the time of.
pub open spec fn times_measured<T: Fn(Mark) -> u128>(clock: T, report: RoundReport) -> bool {
    &&& measured_by(clock, Phase::Keys, report.keygen)
    &&& measured_by(clock, Phase::Server0, report.s0.wall)
    &&& measured_by(clock, Phase::Server1, report.s1.wall)
    &&& measured_by(clock, Phase::Verify, report.verify_wall)
}

/// Runs one trial: picks the queries, has `gen` make the keys and the evaluation of the level
/// answer those of each server, and verifies the answers. `clock` tells the time. A trial that
/// only warms up yields nothing.
pub fn run_trial<
    K: Sync,
    G: Fn(u64, u8) -> (K, K),
    I: Fn(&K, &K, &[u8], usize) -> (Vec<u8>, Vec<u8>, PhaseTimes) + Sync,
    C: Fn(&K, &K, &[u8], usize) -> (Vec<Vec<u8>>, PhaseTimes) + Sync,
    T: Fn(Mark) -> u128,
>(
    level: Level,
    l: &TableLayout,
    cuckoo_num_hashes: usize,
    dpf_n: u8,
    trial_index: usize,
    measured: bool,
    data: &[u8],
    gen: G,
    index_eval: I,
    chunk_eval: C,
    clock: T,
) -> (r: Option<RoundReport>)
    requires
        l.wf(),
        data@.len() == l.file_bytes,
        l.k > 0 ==> l.bins_per_table > 0,
        2 * l.k <= usize::MAX,
        round_sizes_fit(*l, cuckoo_num_hashes, dpf_n),
        forall|alpha: u64|
            alpha < l.bins_per_table ==> #[trigger] call_requires(gen, (alpha, dpf_n)),
        forall|keys: Seq<(K, K)>|
            keys.len() == l.k ==> #[trigger] server_ready(
                level,
                keys,
                data@,
                *l,
                index_eval,
                chunk_eval,
            ),
        clock_ready(clock),
        clock_fits(clock, 4),
    ensures
        r is Some <==> measured,
        r matches Some(report) ==> exists|keys: TrialKeys<K>| #[trigger]
            keys_made(
                gen,
                l.k,
                l.bins_per_table,
                dpf_n,
                dpf_seed(trial_index, l.bins_per_table, l.result_size),
                keys,
            ) && report_of(
                level,
                *l,
                data@,
                cuckoo_num_hashes,
                dpf_n,
                index_eval,
                chunk_eval,
                keys,
                report,
            ),
        r matches Some(report) ==> times_measured(clock, report),
{
    let seed: u64 = trial_seed(trial_index, l.bins_per_table, l.result_size);
    let before_keys: u128 = clock(Mark::Start(Phase::Keys));
    let keys = generate_keys(l.k, l.bins_per_table, dpf_n, seed, &gen);
    let after_keys: u128 = clock(Mark::End(Phase::Keys));
    let keygen: u128 = elapsed_time(before_keys, after_keys);
    let s0 = process_server(
        level,
        &keys.server0,
        data,
        l,
        &index_eval,
        &chunk_eval,
        Phase::Server0,
        &clock,
    );
    let s1 = process_server(
        level,
        &keys.server1,
        data,
        l,
        &index_eval,
        &chunk_eval,
        Phase::Server1,
        &clock,
    );
    assert forall|g: int, q: int| 0 <= g < keys.targets@.len() && 0 <= q < 2 implies #[trigger]
        bin_start(
            l.header_size,
            l.table_byte_size,
            l.result_size,
            g,
            target(keys.targets@[g], q),
        ) + l.result_size <= data@.len() by {
        law_queries_lie_in_file(*l, seed, g, q);
    }
    let before_verify: u128 = clock(Mark::Start(Phase::Verify));
    let verdict = verify_outputs(
        &keys.targets,
        &s0.outputs,
        &s1.outputs,
        data,
        l.header_size,
        l.result_size,
        l.table_byte_size,
    );
    let after_verify: u128 = clock(Mark::End(Phase::Verify));
    let verify_wall: u128 = elapsed_time(before_verify, after_verify);
    if !measured {
        return None;
    }
    assert(call_ensures(clock, (Mark::Start(Phase::Keys),), before_keys));
    assert(call_ensures(clock, (Mark::End(Phase::Keys),), after_keys));
    assert(call_ensures(clock, (Mark::Start(Phase::Verify),), before_verify));
    assert(call_ensures(clock, (Mark::End(Phase::Verify),), after_verify));
    let summary = summarize_round(
        l,
        cuckoo_num_hashes,
        dpf_n,
        keygen,
        &s0,
        &s1,
        &verdict,
        verify_wall,
    );
    Some(RoundReport { keygen, s0, s1, verdict, verify_wall, summary })
}

/// The entries of a table of the layout.
pub open spec fn entries_of(l: TableLayout, table: Seq<u8>) -> Seq<Seq<u8>> {
    Seq::new(l.bins_per_table as nat, |b: int| entry_at(table, l.result_size, b))
}

/// The evaluation of the level answers a query with the exclusive or of the entries that the key
/// selects: those that `pick` of the key picks.
pub open spec fn evals_select<
    K,
    I: Fn(&K, &K, &[u8], usize) -> (Vec<u8>, Vec<u8>, PhaseTimes),
    C: Fn(&K, &K, &[u8], usize) -> (Vec<Vec<u8>>, PhaseTimes),
>(
    level: Level,
    l: TableLayout,
    index_eval: I,
    chunk_eval: C,
    pick: spec_fn(K) -> spec_fn(int) -> bool,
) -> bool {
    forall|keys: (K, K), table: Seq<u8>, output: GroupOutput, times: PhaseTimes|
        table.len() == l.table_byte_size && #[trigger] group_answered(
            level,
            keys,
            table,
            l.bins_per_table,
            index_eval,
            chunk_eval,
            output,
            times,
        ) ==> {
            &&& output.q0@ == select_xor(
                entries_of(l, table),
                pick(keys.0),
                l.result_size as nat,
            )
            &&& output.q1@ == select_xor(
                entries_of(l, table),
                pick(keys.1),
                l.result_size as nat,
            )
        }
}

/// The two keys that `gen` makes for a bin select the same entries but for that bin.
pub open spec fn gen_splits<K, G: Fn(u64, u8) -> (K, K)>(
    gen: G,
    bins_per_table: usize,
    dpf_n: u8,
    pick: spec_fn(K) -> spec_fn(int) -> bool,
) -> bool {
    forall|alpha: u64, a: K, b: K, i: int|
        #![trigger call_ensures(gen, (alpha, dpf_n), (a, b)), pick(a)(i)]
        call_ensures(gen, (alpha, dpf_n), (a, b)) && 0 <= i < bins_per_table ==> (pick(a)(i)
            != pick(b)(i) <==> i == alpha)
}

/// The key of query 0 or 1 of a group.
spec fn key_of<K>(keys: Seq<(K, K)>, group: int, query: int) -> K {
    if query == 0 {
        keys[group].0
    } else {
        keys[group].1
    }
}

proof fn lemma_answers_select<
    K,
    I: Fn(&K, &K, &[u8], usize) -> (Vec<u8>, Vec<u8>, PhaseTimes),
    C: Fn(&K, &K, &[u8], usize) -> (Vec<Vec<u8>>, PhaseTimes),
>(
    level: Level,
    l: TableLayout,
    data: Seq<u8>,
    index_eval: I,
    chunk_eval: C,
    pick: spec_fn(K) -> spec_fn(int) -> bool,
    keys: Seq<(K, K)>,
    run: ServerRun,
)
    requires
        l.wf(),
        data.len() == l.file_bytes,
        keys.len() == l.k,
        evals_select(level, l, index_eval, chunk_eval, pick),
        served(level, keys, data, l, index_eval, chunk_eval, run),
    ensures
        run.outputs@.len() == l.k,
        forall|g: int, q: int|
            0 <= g < l.k && 0 <= q < 2 ==> #[trigger] answer(run.outputs@[g], q) == select_xor(
                table_rows(l, data, g),
                pick(key_of(keys, g, q)),
                l.result_size as nat,
            ),
{
    let groups = choose|groups: Seq<GroupRun>| #[trigger]
        groups_ran(level, keys, data, l, index_eval, chunk_eval, groups) && collected(
            groups,
            run,
        );
    assert forall|g: int, q: int| 0 <= g < l.k && 0 <= q < 2 implies #[trigger] answer(
        run.outputs@[g],
        q,
    ) == select_xor(
        table_rows(l, data, g),
        pick(key_of(keys, g, q)),
        l.result_size as nat,
    ) by {
        let table = l.table(data, g);
        lemma_table_in_file(l, g);
        assert(group_ran(
            level,
            keys[g],
            table,
            l.bins_per_table,
            &index_eval,
            &chunk_eval,
            groups[g],
        ));
        assert(run.outputs@[g] == groups[g].output);
        assert(entries_of(l, table) =~= table_rows(l, data, g)) by {
            assert forall|b: int| 0 <= b < l.bins_per_table implies entries_of(l, table)[b]
                == table_rows(l, data, g)[b] by {
                law_bin_is_table_entry(l, data, g, b);
            }
        }
    }
}

/// A trial verifies without failure where the evaluation of the level answers with the exclusive
/// or of the entries that a key selects, and the two keys for a bin differ in that bin alone.
pub proof fn law_honest_trial_verifies<
    K,
    G: Fn(u64, u8) -> (K, K),
    I: Fn(&K, &K, &[u8], usize) -> (Vec<u8>, Vec<u8>, PhaseTimes),
    C: Fn(&K, &K, &[u8], usize) -> (Vec<Vec<u8>>, PhaseTimes),
>(
    level: Level,
    l: TableLayout,
    data: Seq<u8>,
    cuckoo_num_hashes: usize,
    dpf_n: u8,
    seed: u64,
    gen: G,
    index_eval: I,
    chunk_eval: C,
    pick: spec_fn(K) -> spec_fn(int) -> bool,
    keys: TrialKeys<K>,
    report: RoundReport,
)
    requires
        l.wf(),
        data.len() == l.file_bytes,
        l.k > 0 ==> l.bins_per_table > 0,
        evals_select(level, l, index_eval, chunk_eval, pick),
        gen_splits(gen, l.bins_per_table, dpf_n, pick),
        keys_made(gen, l.k, l.bins_per_table, dpf_n, seed, keys),
        report_of(
            level,
            l,
            data,
            cuckoo_num_hashes,
            dpf_n,
            index_eval,
            chunk_eval,
            keys,
            report,
        ),
    ensures
        report.verdict.failures == 0,
{
    let targets = keys.targets@;
    let pick0 = |g: int, q: int| pick(key_of(keys.server0@, g, q));
    let pick1 = |g: int, q: int| pick(key_of(keys.server1@, g, q));
    lemma_answers_select(
        level,
        l,
        data,
        index_eval,
        chunk_eval,
        pick,
        keys.server0@,
        report.s0,
    );
    lemma_answers_select(
        level,
        l,
        data,
        index_eval,
        chunk_eval,
        pick,
        keys.server1@,
        report.s1,
    );
    assert forall|g: int, q: int| 0 <= g < targets.len() && 0 <= q < 2 implies 0 <= #[trigger]
        target(targets[g], q) < l.bins_per_table by {
        law_targets_are_bins(seed, l.bins_per_table, g);
    }
    assert forall|g: int, q: int, b: int|
        0 <= g < targets.len() && 0 <= q < 2 && 0 <= b < l.bins_per_table implies (#[trigger]
    pick0(g, q)(b) != pick1(g, q)(b) <==> b == target(targets[g], q)) by {
        law_targets_are_bins(seed, l.bins_per_table, g);
        let x = key_of(keys.server0@, g, q);
        let y = key_of(keys.server1@, g, q);
        let alpha = if q == 0 {
            targets[g].0
        } else {
            targets[g].1
        };
        assert(call_ensures(gen, (alpha, dpf_n), (x, y)));
        assert(pick(x)(b) == pick0(g, q)(b));
    }
    law_honest_servers_verify(
        l,
        data,
        targets,
        report.s0.outputs@,
        report.s1.outputs@,
        pick0,
        pick1,
    );
}

} // verus!
