//! One round of the two-server protocol: queries, the servers' answers and their verification.
use crate::bytes::{bytes_equal, checksum_bytes, xor_into};
use crate::kinds::Level;
use crate::layout::{bin_slice, table_slice, TableLayout};
use crate::parallel::par_map;
use crate::random::splitmix64;
use crate::tally::Verdict;
use crate::timing::{elapsed_time, parallel_time, Mark, Phase, PhaseTimes, MAX_NANOS};
use vstd::prelude::*;
use vstd::slice::slice_to_vec;

#[allow(unused_imports)]
use crate::bytes::{checksum, lemma_xor_all_push, xor_all, xor_seq};
#[allow(unused_imports)]
use crate::layout::{bin_at, bin_start, law_layout_covers, lemma_table_in_file};
#[allow(unused_imports)]
use crate::random::{splitmix_draw, splitmix_state};
#[allow(unused_imports)]
use crate::select::{law_selections_differing_in_one_row, select_xor};
#[allow(unused_imports)]
use crate::tally::{
    law_no_mismatch_iff_equal, lemma_mismatches_bound, lemma_tally_push, mismatches, rows_checksum,
};
#[allow(unused_imports)]
use crate::timing::{clock_ready, lemma_total_time_prefix, longer, measured_by, total_time};

verus! {

/// The queries of one trial: per group two bins, and for each of them one key per server.
pub struct TrialKeys<K> {
    pub targets: Vec<(u64, u64)>,
    pub server0: Vec<(K, K)>,
    pub server1: Vec<(K, K)>,
}

/// A server's answers to the two queries of one group.
#[derive(Debug)]
pub struct GroupOutput {
    pub q0: Vec<u8>,
    pub q1: Vec<u8>,
}

/// A server's work on one group.
pub struct GroupRun {
    pub output: GroupOutput,
    pub times: PhaseTimes,
    pub checksum: u64,
}

/// A server's work on all groups.
pub struct ServerRun {
    pub outputs: Vec<GroupOutput>,
    pub wall: u128,
    pub dpf_sum: u128,
    pub fetch_sum: u128,
    pub checksum: u64,
}

/// The two bins that group `i` queries.
pub open spec fn target_pair(seed: u64, bins_per_table: usize, i: int) -> (u64, u64) {
    (
        splitmix_draw(seed, (2 * i) as nat) % (bins_per_table as u64),
        splitmix_draw(seed, (2 * i + 1) as nat) % (bins_per_table as u64),
    )
}

/// The queries of a trial of `k` groups: the bins come from `seed`, and `gen` made the keys for
/// them, the first of each pair for server 0 and the second for server 1.
pub open spec fn keys_made<K, F: Fn(u64, u8) -> (K, K)>(
    gen: F,
    k: usize,
    bins_per_table: usize,
    dpf_n: u8,
    seed: u64,
    keys: TrialKeys<K>,
) -> bool {
    &&& keys.targets@ == Seq::new(k as nat, |i: int| target_pair(seed, bins_per_table, i))
    &&& keys.server0@.len() == k
    &&& keys.server1@.len() == k
    &&& forall|i: int|
        #![trigger keys.server0@[i], keys.server1@[i]]
        0 <= i < k ==> {
            &&& call_ensures(
                gen,
                (keys.targets@[i].0, dpf_n),
                (keys.server0@[i].0, keys.server1@[i].0),
            )
            &&& call_ensures(
                gen,
                (keys.targets@[i].1, dpf_n),
                (keys.server0@[i].1, keys.server1@[i].1),
            )
        }
}

/// Picks two bins per group, and has `gen` make the keys for them. Of each pair of keys the first
/// goes to server 0 and the second to server 1.
pub fn generate_keys<K, F: Fn(u64, u8) -> (K, K)>(
    k: usize,
    bins_per_table: usize,
    dpf_n: u8,
    seed: u64,
    gen: &F,
) -> (r: TrialKeys<K>)
    requires
        k > 0 ==> bins_per_table > 0,
        forall|i: int|
            0 <= i < k ==> #[trigger] call_requires(
                *gen,
                (target_pair(seed, bins_per_table, i).0, dpf_n),
            ),
        forall|i: int|
            0 <= i < k ==> #[trigger] call_requires(
                *gen,
                (target_pair(seed, bins_per_table, i).1, dpf_n),
            ),
    ensures
        keys_made(*gen, k, bins_per_table, dpf_n, seed, r),
{
    let mut state: u64 = seed;
    let mut targets: Vec<(u64, u64)> = Vec::new();
    let mut server0: Vec<(K, K)> = Vec::new();
    let mut server1: Vec<(K, K)> = Vec::new();
    let mut i: usize = 0;
    while i < k
        invariant
            i <= k,
            k > 0 ==> bins_per_table > 0,
            state == splitmix_state(seed, (2 * i) as nat),
            targets@.len() == i,
            server0@.len() == i,
            server1@.len() == i,
            forall|j: int| 0 <= j < i ==> targets@[j] == target_pair(seed, bins_per_table, j),
            forall|j: int|
                0 <= j < k ==> #[trigger] call_requires(
                    *gen,
                    (target_pair(seed, bins_per_table, j).0, dpf_n),
                ),
            forall|j: int|
                0 <= j < k ==> #[trigger] call_requires(
                    *gen,
                    (target_pair(seed, bins_per_table, j).1, dpf_n),
                ),
            forall|j: int|
                #![trigger server0@[j], server1@[j]]
                0 <= j < i ==> {
                    &&& call_ensures(
                        *gen,
                        (targets@[j].0, dpf_n),
                        (server0@[j].0, server1@[j].0),
                    )
                    &&& call_ensures(
                        *gen,
                        (targets@[j].1, dpf_n),
                        (server0@[j].1, server1@[j].1),
                    )
                },
        decreases k - i,
    {
        proof {
            reveal_with_fuel(splitmix_state, 3);
        }
        let alpha0: u64 = splitmix64(&mut state) % (bins_per_table as u64);
        let alpha1: u64 = splitmix64(&mut state) % (bins_per_table as u64);
        assert(target_pair(seed, bins_per_table, i as int) == (alpha0, alpha1));
        assert(call_requires(*gen, (target_pair(seed, bins_per_table, i as int).0, dpf_n)));
        assert(call_requires(*gen, (target_pair(seed, bins_per_table, i as int).1, dpf_n)));
        let (s0_q0, s1_q0) = gen(alpha0, dpf_n);
        let (s0_q1, s1_q1) = gen(alpha1, dpf_n);
        targets.push((alpha0, alpha1));
        server0.push((s0_q0, s0_q1));
        server1.push((s1_q0, s1_q1));
        i = i + 1;
    }
    assert(targets@ =~= Seq::new(k as nat, |i: int| target_pair(seed, bins_per_table, i)));
    TrialKeys { targets, server0, server1 }
}

/// Whether `r` can come of a server's work on `table`: `index_eval` answers the queries of the
/// index level, and the first two rows that `chunk_eval` returns are the answers to those of the
/// chunk level.
pub open spec fn group_answered<
    K,
    I: Fn(&K, &K, &[u8], usize) -> (Vec<u8>, Vec<u8>, PhaseTimes),
    C: Fn(&K, &K, &[u8], usize) -> (Vec<Vec<u8>>, PhaseTimes),
>(
    level: Level,
    keys: (K, K),
    table: Seq<u8>,
    bins_per_table: usize,
    index_eval: I,
    chunk_eval: C,
    output: GroupOutput,
    times: PhaseTimes,
) -> bool {
    match level {
        Level::Index => exists|t: &[u8]|
            t@ == table && #[trigger] call_ensures(
                index_eval,
                (&keys.0, &keys.1, t, bins_per_table),
                (output.q0, output.q1, times),
            ),
        Level::Chunk => exists|t: &[u8], rows: Vec<Vec<u8>>|
            t@ == table && #[trigger] call_ensures(
                chunk_eval,
                (&keys.0, &keys.1, t, bins_per_table),
                (rows, times),
            ) && rows@.len() >= 2 && rows@[0] == output.q0 && rows@[1] == output.q1,
    }
}

/// The evaluation of the level can be called for a group with the table `table`, and answers both
/// queries.
pub open spec fn group_ready<
    K,
    I: Fn(&K, &K, &[u8], usize) -> (Vec<u8>, Vec<u8>, PhaseTimes),
    C: Fn(&K, &K, &[u8], usize) -> (Vec<Vec<u8>>, PhaseTimes),
>(
    level: Level,
    keys: (K, K),
    table: Seq<u8>,
    bins_per_table: usize,
    index_eval: &I,
    chunk_eval: &C,
) -> bool {
    match level {
        Level::Index => forall|t: &[u8]|
            t@ == table ==> #[trigger] call_requires(
                *index_eval,
                (&keys.0, &keys.1, t, bins_per_table),
            ),
        Level::Chunk => {
            &&& forall|t: &[u8]|
                t@ == table ==> #[trigger] call_requires(
                    *chunk_eval,
                    (&keys.0, &keys.1, t, bins_per_table),
                )
            &&& forall|t: &[u8], rows: Vec<Vec<u8>>, times: PhaseTimes|
                t@ == table && #[trigger] call_ensures(
                    *chunk_eval,
                    (&keys.0, &keys.1, t, bins_per_table),
                    (rows, times),
                ) ==> rows@.len() >= 2
        },
    }
}

/// `run` is a server's work on a group with the table `table`.
pub open spec fn group_ran<
    K,
    I: Fn(&K, &K, &[u8], usize) -> (Vec<u8>, Vec<u8>, PhaseTimes),
    C: Fn(&K, &K, &[u8], usize) -> (Vec<Vec<u8>>, PhaseTimes),
>(
    level: Level,
    keys: (K, K),
    table: Seq<u8>,
    bins_per_table: usize,
    index_eval: &I,
    chunk_eval: &C,
    run: GroupRun,
) -> bool {
    &&& group_answered(
        level,
        keys,
        table,
        bins_per_table,
        *index_eval,
        *chunk_eval,
        run.output,
        run.times,
    )
    &&& run.checksum == checksum(run.output.q0@) ^ checksum(run.output.q1@)
}

/// One server's work on one group: has the evaluation of the group's level answer both queries
/// over the group's table.
pub fn process_group<
    K,
    I: Fn(&K, &K, &[u8], usize) -> (Vec<u8>, Vec<u8>, PhaseTimes),
    C: Fn(&K, &K, &[u8], usize) -> (Vec<Vec<u8>>, PhaseTimes),
>(
    level: Level,
    keys: &(K, K),
    data: &[u8],
    l: &TableLayout,
    group: usize,
    index_eval: &I,
    chunk_eval: &C,
) -> (r: GroupRun)
    requires
        l.wf(),
        data@.len() == l.file_bytes,
        group < l.k,
        group_ready(
            level,
            *keys,
            l.table(data@, group as int),
            l.bins_per_table,
            index_eval,
            chunk_eval,
        ),
    ensures
        group_ran(
            level,
            *keys,
            l.table(data@, group as int),
            l.bins_per_table,
            index_eval,
            chunk_eval,
            r,
        ),
{
    proof {
        lemma_table_in_file(*l, group as int);
    }
    let table = table_slice(data, l.header_size, l.table_byte_size, group);
    let (q0, q1, times) = match level {
        Level::Index => {
            let (q0, q1, times) = index_eval(&keys.0, &keys.1, table, l.bins_per_table);
            assert(call_ensures(
                *index_eval,
                (&keys.0, &keys.1, table, l.bins_per_table),
                (q0, q1, times),
            ));
            (q0, q1, times)
        },
        Level::Chunk => {
            let (mut rows, times) = chunk_eval(&keys.0, &keys.1, table, l.bins_per_table);
            assert(call_ensures(
                *chunk_eval,
                (&keys.0, &keys.1, table, l.bins_per_table),
                (rows, times),
            ));
            let q0 = rows.remove(0);
            let q1 = rows.remove(0);
            (q0, q1, times)
        },
    };
    let checksum = checksum_bytes(q0.as_slice()) ^ checksum_bytes(q1.as_slice());
    GroupRun { output: GroupOutput { q0, q1 }, times, checksum }
}

/// The evaluation times of `groups`.
pub open spec fn dpf_times(groups: Seq<GroupRun>) -> Seq<u128> {
    groups.map_values(|g: GroupRun| g.times.dpf_eval)
}

/// The fetch times of `groups`.
pub open spec fn fetch_times(groups: Seq<GroupRun>) -> Seq<u128> {
    groups.map_values(|g: GroupRun| g.times.fetch_xor)
}

/// `run` puts together what a server did for each of `groups`.
pub open spec fn collected(groups: Seq<GroupRun>, run: ServerRun) -> bool {
    &&& run.outputs@ == groups.map_values(|g: GroupRun| g.output)
    &&& run.dpf_sum == total_time(dpf_times(groups))
    &&& run.fetch_sum == total_time(fetch_times(groups))
    &&& run.checksum == xor_all(groups.map_values(|g: GroupRun| g.checksum))
}

/// Puts together what one server did for each group; `wall` is the time that all of it took.
pub fn collect_groups(groups: Vec<GroupRun>, wall: u128) -> (r: ServerRun)
    requires
        total_time(dpf_times(groups@)) <= MAX_NANOS,
        total_time(fetch_times(groups@)) <= MAX_NANOS,
    ensures
        collected(groups@, r),
        r.wall == wall,
{
    let mut outputs: Vec<GroupOutput> = Vec::new();
    let mut dpf_sum: u128 = 0;
    let mut fetch_sum: u128 = 0;
    let mut checksum: u64 = 0;
    let ghost all = groups@;
    let ghost sums = groups@.map_values(|g: GroupRun| g.checksum);
    for g in it: groups
        invariant
            it.seq() == all,
            sums == all.map_values(|g: GroupRun| g.checksum),
            total_time(dpf_times(all)) <= MAX_NANOS,
            total_time(fetch_times(all)) <= MAX_NANOS,
            outputs@ =~= all.take(it.index()).map_values(|g: GroupRun| g.output),
            dpf_sum == total_time(dpf_times(all).take(it.index())),
            fetch_sum == total_time(fetch_times(all).take(it.index())),
            checksum == xor_all(sums.take(it.index())),
    {
        let ghost i = it.index();
        proof {
            lemma_total_time_prefix(dpf_times(all), i + 1);
            lemma_total_time_prefix(fetch_times(all), i + 1);
            assert(dpf_times(all).take(i + 1).drop_last() =~= dpf_times(all).take(i));
            assert(fetch_times(all).take(i + 1).drop_last() =~= fetch_times(all).take(i));
            assert(sums.take(i + 1) =~= sums.take(i).push(g.checksum));
            lemma_xor_all_push(sums.take(i), g.checksum);
        }
        outputs.push(g.output);
        dpf_sum = dpf_sum + g.times.dpf_eval;
        fetch_sum = fetch_sum + g.times.fetch_xor;
        checksum = checksum ^ g.checksum;
    }
    assert(dpf_times(all).take(all.len() as int) =~= dpf_times(all));
    assert(fetch_times(all).take(all.len() as int) =~= fetch_times(all));
    assert(sums.take(all.len() as int) =~= sums);
    assert(all.take(all.len() as int) =~= all);
    ServerRun { outputs, wall, dpf_sum, fetch_sum, checksum }
}

/// `groups` are a server's work on each group, with the keys `keys`.
pub open spec fn groups_ran<
    K,
    I: Fn(&K, &K, &[u8], usize) -> (Vec<u8>, Vec<u8>, PhaseTimes),
    C: Fn(&K, &K, &[u8], usize) -> (Vec<Vec<u8>>, PhaseTimes),
>(
    level: Level,
    keys: Seq<(K, K)>,
    data: Seq<u8>,
    l: TableLayout,
    index_eval: I,
    chunk_eval: C,
    groups: Seq<GroupRun>,
) -> bool {
    &&& groups.len() == keys.len()
    &&& forall|g: int|
        0 <= g < keys.len() ==> group_ran(
            level,
            keys[g],
            l.table(data, g),
            l.bins_per_table,
            &index_eval,
            &chunk_eval,
            #[trigger] groups[g],
        )
}

/// The evaluations can be called for every group, and the times that they take add up to no more
/// than a time can be.
pub open spec fn server_ready<
    K,
    I: Fn(&K, &K, &[u8], usize) -> (Vec<u8>, Vec<u8>, PhaseTimes),
    C: Fn(&K, &K, &[u8], usize) -> (Vec<Vec<u8>>, PhaseTimes),
>(
    level: Level,
    keys: Seq<(K, K)>,
    data: Seq<u8>,
    l: TableLayout,
    index_eval: I,
    chunk_eval: C,
) -> bool {
    &&& forall|g: int|
        0 <= g < keys.len() ==> group_ready(
            level,
            #[trigger] keys[g],
            l.table(data, g),
            l.bins_per_table,
            &index_eval,
            &chunk_eval,
        )
    &&& forall|groups: Seq<GroupRun>| #[trigger]
        groups_ran(level, keys, data, l, index_eval, chunk_eval, groups) ==> total_time(
            dpf_times(groups),
        ) <= MAX_NANOS && total_time(fetch_times(groups)) <= MAX_NANOS
}

/// `run` is a server's work on all groups, with the keys `keys`.
pub open spec fn served<
    K,
    I: Fn(&K, &K, &[u8], usize) -> (Vec<u8>, Vec<u8>, PhaseTimes),
    C: Fn(&K, &K, &[u8], usize) -> (Vec<Vec<u8>>, PhaseTimes),
>(
    level: Level,
    keys: Seq<(K, K)>,
    data: Seq<u8>,
    l: TableLayout,
    index_eval: I,
    chunk_eval: C,
    run: ServerRun,
) -> bool {
    exists|groups: Seq<GroupRun>| #[trigger]
        groups_ran(level, keys, data, l, index_eval, chunk_eval, groups) && collected(groups, run)
}

/// One server's work on all groups, which are worked on in parallel. `clock` tells the time, and
/// `phase` says which server's work it is to measure.
pub fn process_server<
    K: Sync,
    I: Fn(&K, &K, &[u8], usize) -> (Vec<u8>, Vec<u8>, PhaseTimes) + Sync,
    C: Fn(&K, &K, &[u8], usize) -> (Vec<Vec<u8>>, PhaseTimes) + Sync,
    T: Fn(Mark) -> u128,
>(
    level: Level,
    keys: &Vec<(K, K)>,
    data: &[u8],
    l: &TableLayout,
    index_eval: &I,
    chunk_eval: &C,
    phase: Phase,
    clock: &T,
) -> (r: ServerRun)
    requires
        l.wf(),
        data@.len() == l.file_bytes,
        keys@.len() <= l.k,
        server_ready(level, keys@, data@, *l, *index_eval, *chunk_eval),
        clock_ready(*clock),
    ensures
        served(level, keys@, data@, *l, *index_eval, *chunk_eval, r),
        measured_by(*clock, phase, r.wall),
{
    let n: usize = keys.len();
    let started: u128 = clock(Mark::Start(phase));
    let work = |group: usize| -> (run: GroupRun)
        requires
            group < keys@.len(),
            keys@.len() <= l.k,
            l.wf(),
            data@.len() == l.file_bytes,
            group_ready(
                level,
                keys@[group as int],
                l.table(data@, group as int),
                l.bins_per_table,
                index_eval,
                chunk_eval,
            ),
        ensures
            group_ran(
                level,
                keys@[group as int],
                l.table(data@, group as int),
                l.bins_per_table,
                index_eval,
                chunk_eval,
                run,
            ),
        { process_group(level, &keys[group], data, l, group, index_eval, chunk_eval) };
    let groups: Vec<GroupRun> = par_map(n, work);
    let ended: u128 = clock(Mark::End(phase));
    assert(call_ensures(*clock, (Mark::Start(phase),), started));
    assert(call_ensures(*clock, (Mark::End(phase),), ended));
    assert(groups_ran(level, keys@, data@, *l, *index_eval, *chunk_eval, groups@)) by {
        assert forall|g: int| 0 <= g < keys@.len() implies group_ran(
            level,
            keys@[g],
            l.table(data@, g),
            l.bins_per_table,
            index_eval,
            chunk_eval,
            #[trigger] groups@[g],
        ) by {
            let i = g as usize;
            assert(call_ensures(work, (i,), groups@[i as int]));
        }
    }
    collect_groups(groups, elapsed_time(started, ended))
}

/// A server's answer to query 0 or 1 of a group.
pub open spec fn answer(output: GroupOutput, query: int) -> Seq<u8> {
    if query == 0 {
        output.q0@
    } else {
        output.q1@
    }
}

/// The bin of query 0 or 1 of a group.
pub open spec fn target(pair: (u64, u64), query: int) -> int {
    if query == 0 {
        pair.0 as usize as int
    } else {
        pair.1 as usize as int
    }
}

/// What the answers of both servers combine to, for both queries of each of `n` groups.
pub open spec fn combined_rows(
    out0: Seq<GroupOutput>,
    out1: Seq<GroupOutput>,
    n: nat,
) -> Seq<Seq<u8>> {
    Seq::new(
        2 * n,
        |i: int| xor_seq(answer(out0[i / 2], i % 2), answer(out1[i / 2], i % 2)),
    )
}

/// The bins that were queried, for both queries of each group.
pub open spec fn expected_rows(
    targets: Seq<(u64, u64)>,
    data: Seq<u8>,
    header_size: usize,
    result_size: usize,
    table_byte_size: usize,
) -> Seq<Seq<u8>> {
    Seq::new(
        2 * targets.len(),
        |i: int|
            bin_at(
                data,
                header_size,
                table_byte_size,
                result_size,
                i / 2,
                target(targets[i / 2], i % 2),
            ),
    )
}

/// Combines two answers to one query, and compares the result with the bin that was queried.
fn combine_and_compare(first: &Vec<u8>, second: &Vec<u8>, expected: &[u8]) -> (r: (bool, u64))
    ensures
        r.0 == (xor_seq(first@, second@) == expected@),
        r.1 == checksum(xor_seq(first@, second@)),
{
    let mut combined: Vec<u8> = slice_to_vec(first.as_slice());
    xor_into(combined.as_mut_slice(), second.as_slice());
    let sum = checksum_bytes(combined.as_slice());
    (bytes_equal(combined.as_slice(), expected), sum)
}

/// Combines the answers of both servers to every query, and counts those that are not the bin that
/// was queried.
pub fn verify_outputs(
    targets: &Vec<(u64, u64)>,
    s0: &Vec<GroupOutput>,
    s1: &Vec<GroupOutput>,
    data: &[u8],
    header_size: usize,
    result_size: usize,
    table_byte_size: usize,
) -> (r: Verdict)
    requires
        2 * targets@.len() <= usize::MAX,
        targets@.len() <= s0@.len(),
        targets@.len() <= s1@.len(),
        forall|g: int, q: int|
            0 <= g < targets@.len() && 0 <= q < 2 ==> #[trigger] bin_start(
                header_size,
                table_byte_size,
                result_size,
                g,
                target(targets@[g], q),
            ) + result_size <= data@.len(),
    ensures
        r.failures == mismatches(
            combined_rows(s0@, s1@, targets@.len()),
            expected_rows(targets@, data@, header_size, result_size, table_byte_size),
        ),
        r.checksum == rows_checksum(combined_rows(s0@, s1@, targets@.len())),
{
    let n: usize = targets.len();
    let mut failures: usize = 0;
    let mut checksum: u64 = 0;
    let ghost got = combined_rows(s0@, s1@, targets@.len());
    let ghost want = expected_rows(targets@, data@, header_size, result_size, table_byte_size);
    assert(got.take(0) =~= Seq::<Seq<u8>>::empty());
    let mut group: usize = 0;
    while group < n
        invariant
            group <= n,
            n == targets@.len(),
            2 * n <= usize::MAX,
            n <= s0@.len(),
            n <= s1@.len(),
            got == combined_rows(s0@, s1@, targets@.len()),
            want == expected_rows(targets@, data@, header_size, result_size, table_byte_size),
            failures == mismatches(got.take(2 * group), want),
            checksum == rows_checksum(got.take(2 * group)),
            forall|g: int, q: int|
                0 <= g < targets@.len() && 0 <= q < 2 ==> #[trigger] bin_start(
                    header_size,
                    table_byte_size,
                    result_size,
                    g,
                    target(targets@[g], q),
                ) + result_size <= data@.len(),
        decreases n - group,
    {
        let (alpha0, alpha1) = targets[group];
        let ghost i = 2 * group;
        proof {
            assert(target(targets@[group as int], 0) == alpha0 as usize as int);
            assert(target(targets@[group as int], 1) == alpha1 as usize as int);
            lemma_tally_push(got, want, i);
            lemma_tally_push(got, want, i + 1);
            lemma_mismatches_bound(got.take(i), want);
            lemma_mismatches_bound(got.take(i + 1), want);
        }
        let expected0 = bin_slice(
            data,
            header_size,
            table_byte_size,
            result_size,
            group,
            alpha0 as usize,
        );
        let (ok0, sum0) = combine_and_compare(&s0[group].q0, &s1[group].q0, expected0);
        checksum = checksum ^ sum0;
        if !ok0 {
            failures = failures + 1;
        }
        let expected1 = bin_slice(
            data,
            header_size,
            table_byte_size,
            result_size,
            group,
            alpha1 as usize,
        );
        let (ok1, sum1) = combine_and_compare(&s0[group].q1, &s1[group].q1, expected1);
        checksum = checksum ^ sum1;
        if !ok1 {
            failures = failures + 1;
        }
        group = group + 1;
    }
    assert(got.take(2 * n) =~= got);
    Verdict { failures, checksum }
}

/// The bytes of one key for a domain of 2^`dpf_n` bins.
pub open spec fn key_wire_size(dpf_n: u8) -> nat {
    ((dpf_n + 2) * 16 + (dpf_n + 7) / 8) as nat
}

/// The bytes of one key for a domain of 2^`dpf_n` bins.
pub fn dpf_key_wire_size(dpf_n: u8) -> (r: usize)
    ensures
        r == key_wire_size(dpf_n),
{
    (dpf_n as usize + 2) * 16 + (dpf_n as usize + 7) / 8
}

/// The sizes of a trial, its times besides the servers' own, and its checksum.
#[derive(Clone, Copy, Debug, PartialEq, Eq, Structural)]
pub struct RoundSummary {
    pub key_size: usize,
    pub body_bytes: usize,
    pub upload_per_server: usize,
    pub download_per_server: usize,
    pub verified_queries: usize,
    pub server_parallel: u128,
    pub server_sequential: u128,
    pub total_parallel: u128,
    pub total_local_sequential: u128,
    pub checksum: u64,
}

/// The sizes and times of one trial.
pub open spec fn round_summary(
    l: TableLayout,
    cuckoo_num_hashes: usize,
    dpf_n: u8,
    keygen: u128,
    s0: ServerRun,
    s1: ServerRun,
    verdict: Verdict,
    verify_wall: u128,
) -> RoundSummary {
    RoundSummary {
        key_size: key_wire_size(dpf_n) as usize,
        body_bytes: (l.table_byte_size * l.k) as usize,
        upload_per_server: (l.k * cuckoo_num_hashes * key_wire_size(dpf_n)) as usize,
        download_per_server: (l.k * cuckoo_num_hashes * l.result_size) as usize,
        verified_queries: (l.k * cuckoo_num_hashes) as usize,
        server_parallel: longer(s0.wall, s1.wall),
        server_sequential: (s0.wall + s1.wall) as u128,
        total_parallel: (keygen + longer(s0.wall, s1.wall) + verify_wall) as u128,
        total_local_sequential: (keygen + s0.wall + s1.wall + verify_wall) as u128,
        checksum: s0.checksum ^ s1.checksum ^ verdict.checksum,
    }
}

/// The sizes of a trial fit in machine words.
pub open spec fn round_sizes_fit(l: TableLayout, cuckoo_num_hashes: usize, dpf_n: u8) -> bool {
    &&& l.k * cuckoo_num_hashes <= usize::MAX
    &&& l.k * cuckoo_num_hashes * key_wire_size(dpf_n) <= usize::MAX
    &&& l.k * cuckoo_num_hashes * l.result_size <= usize::MAX
}

/// The sizes and times of one trial.
pub fn summarize_round(
    l: &TableLayout,
    cuckoo_num_hashes: usize,
    dpf_n: u8,
    keygen: u128,
    s0: &ServerRun,
    s1: &ServerRun,
    verdict: &Verdict,
    verify_wall: u128,
) -> (r: RoundSummary)
    requires
        l.wf(),
        round_sizes_fit(*l, cuckoo_num_hashes, dpf_n),
        keygen + s0.wall + s1.wall + verify_wall <= MAX_NANOS,
    ensures
        r == round_summary(*l, cuckoo_num_hashes, dpf_n, keygen, *s0, *s1, *verdict, verify_wall),
{
    let key_size: usize = dpf_key_wire_size(dpf_n);
    let verified_queries: usize = l.k * cuckoo_num_hashes;
    let server_parallel: u128 = parallel_time(s0.wall, s1.wall);
    let server_sequential: u128 = s0.wall + s1.wall;
    assert(l.table_byte_size * l.k == l.k * l.table_byte_size) by (nonlinear_arith);
    RoundSummary {
        key_size,
        body_bytes: l.table_byte_size * l.k,
        upload_per_server: verified_queries * key_size,
        download_per_server: verified_queries * l.result_size,
        verified_queries,
        server_parallel,
        server_sequential,
        total_parallel: keygen + server_parallel + verify_wall,
        total_local_sequential: keygen + server_sequential + verify_wall,
        checksum: s0.checksum ^ s1.checksum ^ verdict.checksum,
    }
}

/// Every queried bin is a bin of the table.
pub proof fn law_targets_are_bins(seed: u64, bins_per_table: usize, i: int)
    requires
        bins_per_table > 0,
    ensures
        target_pair(seed, bins_per_table, i).0 < bins_per_table,
        target_pair(seed, bins_per_table, i).1 < bins_per_table,
{
}

/// Every queried bin lies in the file.
pub proof fn law_queries_lie_in_file(l: TableLayout, seed: u64, group: int, query: int)
    requires
        l.wf(),
        l.bins_per_table > 0,
        0 <= group < l.k,
    ensures
        bin_start(
            l.header_size,
            l.table_byte_size,
            l.result_size,
            group,
            target(target_pair(seed, l.bins_per_table, group), query),
        ) + l.result_size <= l.file_bytes,
{
    law_targets_are_bins(seed, l.bins_per_table, group);
    law_layout_covers(l, group, target(target_pair(seed, l.bins_per_table, group), query));
}

/// The bins of the table of `group`.
pub open spec fn table_rows(l: TableLayout, data: Seq<u8>, group: int) -> Seq<Seq<u8>> {
    Seq::new(
        l.bins_per_table as nat,
        |b: int|
            bin_at(data, l.header_size, l.table_byte_size, l.result_size, group, b),
    )
}

/// If each server answers with the exclusive or of the bins that its key selects, and the two
/// selections differ in one bin alone, the answers combine to that bin.
pub proof fn law_honest_answers_combine(
    l: TableLayout,
    data: Seq<u8>,
    group: int,
    bin: int,
    p: spec_fn(int) -> bool,
    q: spec_fn(int) -> bool,
)
    requires
        l.wf(),
        data.len() == l.file_bytes,
        0 <= group < l.k,
        0 <= bin < l.bins_per_table,
        forall|b: int| 0 <= b < l.bins_per_table ==> (#[trigger] p(b) != q(b) <==> b == bin),
    ensures
        xor_seq(
            select_xor(table_rows(l, data, group), p, l.result_size as nat),
            select_xor(table_rows(l, data, group), q, l.result_size as nat),
        ) == bin_at(data, l.header_size, l.table_byte_size, l.result_size, group, bin),
{
    let rows = table_rows(l, data, group);
    assert forall|j: int| 0 <= j < rows.len() implies (#[trigger] rows[j]).len()
        == l.result_size by {
        law_layout_covers(l, group, j);
    }
    law_selections_differing_in_one_row(rows, p, q, bin, l.result_size as nat);
}

/// If each server answers a query with the exclusive or of the bins that its key selects, and the
/// two selections differ in the queried bin alone, then the verification of the round counts no
/// failure.
pub proof fn law_honest_servers_verify(
    l: TableLayout,
    data: Seq<u8>,
    targets: Seq<(u64, u64)>,
    out0: Seq<GroupOutput>,
    out1: Seq<GroupOutput>,
    pick0: spec_fn(int, int) -> spec_fn(int) -> bool,
    pick1: spec_fn(int, int) -> spec_fn(int) -> bool,
)
    requires
        l.wf(),
        data.len() == l.file_bytes,
        targets.len() <= l.k,
        targets.len() <= out0.len(),
        targets.len() <= out1.len(),
        forall|g: int, q: int|
            0 <= g < targets.len() && 0 <= q < 2 ==> 0 <= #[trigger] target(targets[g], q)
                < l.bins_per_table,
        forall|g: int, q: int|
            0 <= g < targets.len() && 0 <= q < 2 ==> #[trigger] answer(out0[g], q)
                == select_xor(table_rows(l, data, g), pick0(g, q), l.result_size as nat),
        forall|g: int, q: int|
            0 <= g < targets.len() && 0 <= q < 2 ==> #[trigger] answer(out1[g], q)
                == select_xor(table_rows(l, data, g), pick1(g, q), l.result_size as nat),
        forall|g: int, q: int, b: int|
            0 <= g < targets.len() && 0 <= q < 2 && 0 <= b < l.bins_per_table ==> (
            #[trigger] pick0(g, q)(b) != pick1(g, q)(b) <==> b == target(targets[g], q)),
    ensures
        mismatches(
            combined_rows(out0, out1, targets.len()),
            expected_rows(targets, data, l.header_size, l.result_size, l.table_byte_size),
        ) == 0,
{
    let got = combined_rows(out0, out1, targets.len());
    let want = expected_rows(targets, data, l.header_size, l.result_size, l.table_byte_size);
    assert forall|i: int| 0 <= i < got.len() implies got[i] == want[i] by {
        let g = i / 2;
        let q = i % 2;
        let rows = table_rows(l, data, g);
        let b = target(targets[g], q);
        assert(answer(out0[g], q) == select_xor(rows, pick0(g, q), l.result_size as nat));
        assert(answer(out1[g], q) == select_xor(rows, pick1(g, q), l.result_size as nat));
        law_honest_answers_combine(l, data, g, b, pick0(g, q), pick1(g, q));
    }
    assert(got =~= want);
    law_no_mismatch_iff_equal(got, want);
}

} // verus!
