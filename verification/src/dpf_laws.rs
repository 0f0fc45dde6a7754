//! What the two-server round counts, sends and answers, told without the functions that its
//! contracts are written with.
#[allow(unused_imports)]
use crate::byte_laws::{law_checksum_of_rows, law_mismatches_counted, law_xor_each_byte};
#[allow(unused_imports)]
use crate::bytes::{checksum, xor_all, xor_seq};
#[allow(unused_imports)]
use crate::dpf::{
    answer, collected, combined_rows, dpf_times, expected_rows, fetch_times, group_answered,
    group_ran, groups_ran, key_wire_size, keys_made, round_summary, served, GroupOutput, GroupRun,
    ServerRun, TrialKeys,
};
#[allow(unused_imports)]
use crate::dpf_trial::{report_of, times_measured, RoundReport};
use crate::kinds::Level;
use crate::layout::TableLayout;
#[allow(unused_imports)]
use crate::layout_laws::law_bin_bytes;
#[allow(unused_imports)]
use crate::random::splitmix_draw;
#[allow(unused_imports)]
use crate::tally::{law_no_mismatch_iff_equal, mismatches, Verdict};
#[allow(unused_imports)]
use crate::timing::{measured_by, total_time, Phase};
use crate::timing::{Mark, PhaseTimes};
use vstd::prelude::*;

verus! {

/// The rows that a verification compares are two per group, one for each query: what the two
/// answers combine to, and the bytes of the bin that was queried.
pub proof fn law_rows_compared(
    targets: Seq<(u64, u64)>,
    out0: Seq<GroupOutput>,
    out1: Seq<GroupOutput>,
    data: Seq<u8>,
    header_size: usize,
    result_size: usize,
    table_byte_size: usize,
)
    ensures
        ({
            let got = combined_rows(out0, out1, targets.len());
            let want = expected_rows(targets, data, header_size, result_size, table_byte_size);
            &&& got.len() == 2 * targets.len()
            &&& want.len() == 2 * targets.len()
            &&& forall|g: int|
                0 <= g < targets.len() ==> {
                    let start = header_size + g * table_byte_size;
                    let first = start + (#[trigger] targets[g]).0 as usize * result_size;
                    let second = start + targets[g].1 as usize * result_size;
                    &&& got[2 * g] == xor_seq(out0[g].q0@, out1[g].q0@)
                    &&& got[2 * g + 1] == xor_seq(out0[g].q1@, out1[g].q1@)
                    &&& want[2 * g] == data.subrange(first, first + result_size)
                    &&& want[2 * g + 1] == data.subrange(second, second + result_size)
                }
        }),
{
}

/// The failures of a verification are the queries whose answers do not combine to the bytes of the
/// bin that was queried: of `i` the half is the group, and the rest the query.
pub proof fn law_failures_are_wrong_answers(
    targets: Seq<(u64, u64)>,
    out0: Seq<GroupOutput>,
    out1: Seq<GroupOutput>,
    data: Seq<u8>,
    header_size: usize,
    result_size: usize,
    table_byte_size: usize,
)
    ensures
        mismatches(
            combined_rows(out0, out1, targets.len()),
            expected_rows(targets, data, header_size, result_size, table_byte_size),
        ) == Set::<int>::new(
            |i: int|
                0 <= i < 2 * targets.len() && {
                    let g = i / 2;
                    let (a, b, bin) = if i % 2 == 0 {
                        (out0[g].q0@, out1[g].q0@, targets[g].0)
                    } else {
                        (out0[g].q1@, out1[g].q1@, targets[g].1)
                    };
                    let start = header_size + g * table_byte_size + bin as usize * result_size;
                    Seq::new(
                        a.len(),
                        |j: int|
                            if j < b.len() {
                                a[j] ^ b[j]
                            } else {
                                a[j]
                            },
                    ) != data.subrange(start, start + result_size)
                },
        ).len(),
{
    let got = combined_rows(out0, out1, targets.len());
    let want = expected_rows(targets, data, header_size, result_size, table_byte_size);
    law_mismatches_counted(got, want);
    let differ = Set::<int>::new(|i: int| 0 <= i < got.len() && got[i] != want[i]);
    let wrong = Set::<int>::new(
        |i: int|
            0 <= i < 2 * targets.len() && {
                let g = i / 2;
                let (a, b, bin) = if i % 2 == 0 {
                    (out0[g].q0@, out1[g].q0@, targets[g].0)
                } else {
                    (out0[g].q1@, out1[g].q1@, targets[g].1)
                };
                let start = header_size + g * table_byte_size + bin as usize * result_size;
                Seq::new(
                    a.len(),
                    |j: int|
                        if j < b.len() {
                            a[j] ^ b[j]
                        } else {
                            a[j]
                        },
                ) != data.subrange(start, start + result_size)
            },
    );
    assert forall|i: int| differ.contains(i) == wrong.contains(i) by {
        if 0 <= i < 2 * targets.len() {
            let g = i / 2;
            let (a, b) = if i % 2 == 0 {
                (out0[g].q0@, out1[g].q0@)
            } else {
                (out0[g].q1@, out1[g].q1@)
            };
            assert(got[i] =~= Seq::new(
                a.len(),
                |j: int|
                    if j < b.len() {
                        a[j] ^ b[j]
                    } else {
                        a[j]
                    },
            ));
        }
    }
    assert(differ =~= wrong);
}

/// Where a verification counts no failure, the answers of the two servers to both queries of every
/// group are as long as a bin, and combine byte by byte to the bin that was queried.
pub proof fn law_no_failure_means_right_answers(
    targets: Seq<(u64, u64)>,
    out0: Seq<GroupOutput>,
    out1: Seq<GroupOutput>,
    data: Seq<u8>,
    header_size: usize,
    result_size: usize,
    table_byte_size: usize,
    g: int,
    j: int,
)
    requires
        mismatches(
            combined_rows(out0, out1, targets.len()),
            expected_rows(targets, data, header_size, result_size, table_byte_size),
        ) == 0,
        0 <= g < targets.len(),
        0 <= j < result_size,
        header_size + g * table_byte_size + targets[g].0 as usize * result_size + result_size
            <= data.len(),
        header_size + g * table_byte_size + targets[g].1 as usize * result_size + result_size
            <= data.len(),
        out1[g].q0@.len() == out0[g].q0@.len(),
        out1[g].q1@.len() == out0[g].q1@.len(),
    ensures
        out0[g].q0@.len() == result_size,
        out0[g].q1@.len() == result_size,
        out0[g].q0@[j] ^ out1[g].q0@[j] == data[header_size + g * table_byte_size + targets[g].0
            as usize * result_size + j],
        out0[g].q1@[j] ^ out1[g].q1@[j] == data[header_size + g * table_byte_size + targets[g].1
            as usize * result_size + j],
{
    let got = combined_rows(out0, out1, targets.len());
    let want = expected_rows(targets, data, header_size, result_size, table_byte_size);
    law_no_mismatch_iff_equal(got, want);
    law_rows_compared(targets, out0, out1, data, header_size, result_size, table_byte_size);
    law_bin_bytes(
        data,
        header_size,
        table_byte_size,
        result_size,
        g,
        targets[g].0 as usize as int,
    );
    law_bin_bytes(
        data,
        header_size,
        table_byte_size,
        result_size,
        g,
        targets[g].1 as usize as int,
    );
    assert(got[2 * g] == want[2 * g]);
    assert(got[2 * g + 1] == want[2 * g + 1]);
    law_xor_each_byte(out0[g].q0@, out1[g].q0@);
    law_xor_each_byte(out0[g].q1@, out1[g].q1@);
    assert(want[2 * g][j] == got[2 * g][j]);
    assert(want[2 * g + 1][j] == got[2 * g + 1][j]);
}

/// The verdict of a trial: it counts the queries of all groups whose answers do not combine to the
/// bytes of the bin that was queried, and its checksum takes in what the answers of all of them
/// combine to.
pub proof fn law_verdict_of_trial<
    K,
    I: Fn(&K, &K, &[u8], usize) -> (Vec<u8>, Vec<u8>, PhaseTimes),
    C: Fn(&K, &K, &[u8], usize) -> (Vec<Vec<u8>>, PhaseTimes),
>(
    level: Level,
    l: TableLayout,
    data: Seq<u8>,
    cuckoo_num_hashes: usize,
    dpf_n: u8,
    index_eval: I,
    chunk_eval: C,
    keys: TrialKeys<K>,
    report: RoundReport,
)
    requires
        report_of(
            level,
            l,
            data,
            cuckoo_num_hashes,
            dpf_n,
            index_eval,
            chunk_eval,
            keys,
            report,
        ),
    ensures
        report.verdict.failures == Set::<int>::new(
            |i: int|
                0 <= i < 2 * keys.targets@.len() && {
                    let g = i / 2;
                    let (a, b, bin) = if i % 2 == 0 {
                        (
                            report.s0.outputs@[g].q0@,
                            report.s1.outputs@[g].q0@,
                            keys.targets@[g].0,
                        )
                    } else {
                        (
                            report.s0.outputs@[g].q1@,
                            report.s1.outputs@[g].q1@,
                            keys.targets@[g].1,
                        )
                    };
                    let start = l.header_size + g * l.table_byte_size + bin as usize
                        * l.result_size;
                    Seq::new(
                        a.len(),
                        |j: int|
                            if j < b.len() {
                                a[j] ^ b[j]
                            } else {
                                a[j]
                            },
                    ) != data.subrange(start, start + l.result_size)
                },
        ).len(),
        report.verdict.checksum == Seq::new(
            2 * keys.targets@.len(),
            |i: int|
                if i % 2 == 0 {
                    xor_seq(report.s0.outputs@[i / 2].q0@, report.s1.outputs@[i / 2].q0@)
                } else {
                    xor_seq(report.s0.outputs@[i / 2].q1@, report.s1.outputs@[i / 2].q1@)
                },
        ).fold_left(0u64, |acc: u64, row: Seq<u8>| acc ^ checksum(row)),
        report.summary.checksum == report.s0.checksum ^ report.s1.checksum
            ^ report.verdict.checksum,
{
    let out0 = report.s0.outputs@;
    let out1 = report.s1.outputs@;
    let targets = keys.targets@;
    law_failures_are_wrong_answers(
        targets,
        out0,
        out1,
        data,
        l.header_size,
        l.result_size,
        l.table_byte_size,
    );
    let got = combined_rows(out0, out1, targets.len());
    law_checksum_of_rows(got);
    assert(got =~= Seq::new(
        2 * targets.len(),
        |i: int|
            if i % 2 == 0 {
                xor_seq(out0[i / 2].q0@, out1[i / 2].q0@)
            } else {
                xor_seq(out0[i / 2].q1@, out1[i / 2].q1@)
            },
    ));
}

/// The keys of a trial: there are as many queries as groups, each of two bins that are drawn one
/// after the other, and the keys of both servers for a bin were made together.
pub proof fn law_keys_of_trial<K, F: Fn(u64, u8) -> (K, K)>(
    gen: F,
    k: usize,
    bins_per_table: usize,
    dpf_n: u8,
    seed: u64,
    keys: TrialKeys<K>,
)
    requires
        keys_made(gen, k, bins_per_table, dpf_n, seed, keys),
    ensures
        keys.targets@.len() == k,
        keys.server0@.len() == k,
        keys.server1@.len() == k,
        forall|i: int|
            0 <= i < k ==> {
                let first = splitmix_draw(seed, (2 * i) as nat) % bins_per_table as u64;
                let second = splitmix_draw(seed, (2 * i + 1) as nat) % bins_per_table as u64;
                &&& #[trigger] keys.targets@[i] == (first, second)
                &&& call_ensures(gen, (first, dpf_n), (keys.server0@[i].0, keys.server1@[i].0))
                &&& call_ensures(gen, (second, dpf_n), (keys.server0@[i].1, keys.server1@[i].1))
            },
{
    assert forall|i: int| 0 <= i < k implies {
        let first = splitmix_draw(seed, (2 * i) as nat) % bins_per_table as u64;
        let second = splitmix_draw(seed, (2 * i + 1) as nat) % bins_per_table as u64;
        &&& #[trigger] keys.targets@[i] == (first, second)
        &&& call_ensures(gen, (first, dpf_n), (keys.server0@[i].0, keys.server1@[i].0))
        &&& call_ensures(gen, (second, dpf_n), (keys.server0@[i].1, keys.server1@[i].1))
    } by {
        let a = keys.server0@[i];
        let b = keys.server1@[i];
        assert(call_ensures(gen, (keys.targets@[i].0, dpf_n), (a.0, b.0)));
    }
}

/// A server's answers: there is one per group, the times that the evaluation took for each of them
/// are added up, and the checksum takes in both answers of each.
pub proof fn law_answers_of_server<
    K,
    I: Fn(&K, &K, &[u8], usize) -> (Vec<u8>, Vec<u8>, PhaseTimes),
    C: Fn(&K, &K, &[u8], usize) -> (Vec<Vec<u8>>, PhaseTimes),
>(
    level: Level,
    keys: Seq<(K, K)>,
    data: Seq<u8>,
    l: TableLayout,
    index_eval: I,
    chunk_eval: C,
    run: ServerRun,
) -> (times: Seq<PhaseTimes>)
    requires
        served(level, keys, data, l, index_eval, chunk_eval, run),
    ensures
        run.outputs@.len() == keys.len(),
        times.len() == keys.len(),
        run.dpf_sum == times.fold_left(0int, |acc: int, t: PhaseTimes| acc + t.dpf_eval),
        run.fetch_sum == times.fold_left(0int, |acc: int, t: PhaseTimes| acc + t.fetch_xor),
        run.checksum == run.outputs@.fold_left(
            0u64,
            |acc: u64, o: GroupOutput| acc ^ (checksum(o.q0@) ^ checksum(o.q1@)),
        ),
        forall|g: int|
            0 <= g < keys.len() ==> group_answered(
                level,
                keys[g],
                data.subrange(
                    l.header_size + g * l.table_byte_size,
                    l.header_size + g * l.table_byte_size + l.table_byte_size,
                ),
                l.bins_per_table,
                index_eval,
                chunk_eval,
                #[trigger] run.outputs@[g],
                times[g],
            ),
{
    let groups = choose|groups: Seq<GroupRun>| #[trigger]
        groups_ran(level, keys, data, l, index_eval, chunk_eval, groups) && collected(
            groups,
            run,
        );
    let times = groups.map_values(|g: GroupRun| g.times);
    lemma_times_add_up(groups);
    assert forall|g: int| 0 <= g < groups.len() implies (#[trigger] groups[g]).checksum == checksum(
        groups[g].output.q0@,
    ) ^ checksum(groups[g].output.q1@) && group_answered(
        level,
        keys[g],
        l.table(data, g),
        l.bins_per_table,
        index_eval,
        chunk_eval,
        run.outputs@[g],
        times[g],
    ) by {
        assert(group_ran(
            level,
            keys[g],
            l.table(data, g),
            l.bins_per_table,
            &index_eval,
            &chunk_eval,
            groups[g],
        ));
        assert(run.outputs@[g] == groups[g].output);
    }
    lemma_checksums_add_up(groups);
    assert forall|g: int| 0 <= g < keys.len() implies group_answered(
        level,
        keys[g],
        data.subrange(
            l.header_size + g * l.table_byte_size,
            l.header_size + g * l.table_byte_size + l.table_byte_size,
        ),
        l.bins_per_table,
        index_eval,
        chunk_eval,
        #[trigger] run.outputs@[g],
        times[g],
    ) by {
        assert(groups[g].output == run.outputs@[g]);
    }
    times
}

/// A server's answer to a group of the index level is what the evaluation gives for the group's two
/// keys over its table, and to one of the chunk level the first two rows that it gives.
pub proof fn law_answer_of_group<
    K,
    I: Fn(&K, &K, &[u8], usize) -> (Vec<u8>, Vec<u8>, PhaseTimes),
    C: Fn(&K, &K, &[u8], usize) -> (Vec<Vec<u8>>, PhaseTimes),
>(
    level: Level,
    keys: (K, K),
    table: Seq<u8>,
    bins_per_table: usize,
    index_eval: I,
    chunk_eval: C,
    output: GroupOutput,
    times: PhaseTimes,
) -> (r: (&'static [u8], Vec<Vec<u8>>))
    requires
        group_answered(
            level,
            keys,
            table,
            bins_per_table,
            index_eval,
            chunk_eval,
            output,
            times,
        ),
    ensures
        r.0@ == table,
        level is Index ==> call_ensures(
            index_eval,
            (&keys.0, &keys.1, r.0, bins_per_table),
            (output.q0, output.q1, times),
        ),
        level is Chunk ==> call_ensures(
            chunk_eval,
            (&keys.0, &keys.1, r.0, bins_per_table),
            (r.1, times),
        ) && r.1@.len() >= 2 && r.1@[0] == output.q0 && r.1@[1] == output.q1,
{
    match level {
        Level::Index => {
            let t = choose|t: &[u8]|
                t@ == table && #[trigger] call_ensures(
                    index_eval,
                    (&keys.0, &keys.1, t, bins_per_table),
                    (output.q0, output.q1, times),
                );
            (t, arbitrary())
        },
        Level::Chunk => {
            let (t, rows) = choose|t: &[u8], rows: Vec<Vec<u8>>|
                t@ == table && #[trigger] call_ensures(
                    chunk_eval,
                    (&keys.0, &keys.1, t, bins_per_table),
                    (rows, times),
                ) && rows@.len() >= 2 && rows@[0] == output.q0 && rows@[1] == output.q1;
            (t, rows)
        },
    }
}

proof fn lemma_times_add_up(groups: Seq<GroupRun>)
    ensures
        total_time(dpf_times(groups)) == groups.map_values(|g: GroupRun| g.times).fold_left(
            0int,
            |acc: int, t: PhaseTimes| acc + t.dpf_eval,
        ),
        total_time(fetch_times(groups)) == groups.map_values(|g: GroupRun| g.times).fold_left(
            0int,
            |acc: int, t: PhaseTimes| acc + t.fetch_xor,
        ),
    decreases groups.len(),
{
    let times = groups.map_values(|g: GroupRun| g.times);
    if groups.len() > 0 {
        let rest = groups.drop_last();
        lemma_times_add_up(rest);
        assert(times.drop_last() =~= rest.map_values(|g: GroupRun| g.times));
        assert(dpf_times(groups).drop_last() =~= dpf_times(rest));
        assert(fetch_times(groups).drop_last() =~= fetch_times(rest));
    }
}

proof fn lemma_checksums_add_up(groups: Seq<GroupRun>)
    requires
        forall|g: int|
            0 <= g < groups.len() ==> (#[trigger] groups[g]).checksum == checksum(
                groups[g].output.q0@,
            ) ^ checksum(groups[g].output.q1@),
    ensures
        xor_all(groups.map_values(|g: GroupRun| g.checksum)) == groups.map_values(
            |g: GroupRun| g.output,
        ).fold_left(
            0u64,
            |acc: u64, o: GroupOutput| acc ^ (checksum(o.q0@) ^ checksum(o.q1@)),
        ),
    decreases groups.len(),
{
    let outputs = groups.map_values(|g: GroupRun| g.output);
    let sums = groups.map_values(|g: GroupRun| g.checksum);
    if groups.len() > 0 {
        let rest = groups.drop_last();
        assert forall|g: int| 0 <= g < rest.len() implies (#[trigger] rest[g]).checksum == checksum(
            rest[g].output.q0@,
        ) ^ checksum(rest[g].output.q1@) by {
            assert(groups[g] == rest[g]);
        }
        lemma_checksums_add_up(rest);
        assert(outputs.drop_last() =~= rest.map_values(|g: GroupRun| g.output));
        assert(sums.drop_last() =~= rest.map_values(|g: GroupRun| g.checksum));
        assert(groups[groups.len() - 1].checksum == sums.last());
    }
}

/// A key takes sixteen bytes for each bit of its domain and for two more, and one for each eight
/// bits of it, also for less than eight that are left.
pub proof fn law_key_size(dpf_n: u8)
    ensures
        16 * (dpf_n + 2) <= key_wire_size(dpf_n),
        dpf_n <= 8 * (key_wire_size(dpf_n) - 16 * (dpf_n + 2)) < dpf_n + 8,
{
}

/// The sizes and times of a trial: each group sends a key and gets a row for each of its hashes,
/// the servers work side by side or one after the other, and making keys and verifying come on
/// top.
pub proof fn law_summary_of_round(
    l: TableLayout,
    cuckoo_num_hashes: usize,
    dpf_n: u8,
    keygen: u128,
    s0: ServerRun,
    s1: ServerRun,
    verdict: Verdict,
    verify_wall: u128,
)
    requires
        l.wf(),
        l.k * cuckoo_num_hashes <= usize::MAX,
        l.k * cuckoo_num_hashes * key_wire_size(dpf_n) <= usize::MAX,
        l.k * cuckoo_num_hashes * l.result_size <= usize::MAX,
        keygen + s0.wall + s1.wall + verify_wall <= u128::MAX,
    ensures
        ({
            let r = round_summary(
                l,
                cuckoo_num_hashes,
                dpf_n,
                keygen,
                s0,
                s1,
                verdict,
                verify_wall,
            );
            &&& r.key_size == key_wire_size(dpf_n)
            &&& r.body_bytes == l.k * l.table_byte_size
            &&& r.verified_queries == l.k * cuckoo_num_hashes
            &&& r.upload_per_server == l.k * cuckoo_num_hashes * key_wire_size(dpf_n)
            &&& r.download_per_server == l.k * cuckoo_num_hashes * l.result_size
            &&& r.server_parallel == (if s0.wall < s1.wall {
                s1.wall
            } else {
                s0.wall
            })
            &&& r.server_sequential == s0.wall + s1.wall
            &&& r.total_parallel == keygen + r.server_parallel + verify_wall
            &&& r.total_local_sequential == keygen + s0.wall + s1.wall + verify_wall
            &&& r.checksum == s0.checksum ^ s1.checksum ^ verdict.checksum
        }),
{
    assert(l.table_byte_size * l.k == l.k * l.table_byte_size) by (nonlinear_arith);
    assert(0 <= l.k * cuckoo_num_hashes) by (nonlinear_arith);
}

/// The report of a trial: each server answered with its own keys, and the times of the report are
/// those of the servers' work, of making the keys and of verifying.
pub proof fn law_servers_of_trial<
    K,
    I: Fn(&K, &K, &[u8], usize) -> (Vec<u8>, Vec<u8>, PhaseTimes),
    C: Fn(&K, &K, &[u8], usize) -> (Vec<Vec<u8>>, PhaseTimes),
>(
    level: Level,
    l: TableLayout,
    data: Seq<u8>,
    cuckoo_num_hashes: usize,
    dpf_n: u8,
    index_eval: I,
    chunk_eval: C,
    keys: TrialKeys<K>,
    report: RoundReport,
)
    requires
        report_of(
            level,
            l,
            data,
            cuckoo_num_hashes,
            dpf_n,
            index_eval,
            chunk_eval,
            keys,
            report,
        ),
    ensures
        served(level, keys.server0@, data, l, index_eval, chunk_eval, report.s0),
        served(level, keys.server1@, data, l, index_eval, chunk_eval, report.s1),
        report.s0.outputs@.len() == keys.server0@.len(),
        report.s1.outputs@.len() == keys.server1@.len(),
        report.summary == round_summary(
            l,
            cuckoo_num_hashes,
            dpf_n,
            report.keygen,
            report.s0,
            report.s1,
            report.verdict,
            report.verify_wall,
        ),
{
}

/// The times of a trial were measured, each over the phase that it is the time of.
pub proof fn law_times_of_trial<T: Fn(Mark) -> u128>(clock: T, report: RoundReport)
    requires
        times_measured(clock, report),
    ensures
        measured_by(clock, Phase::Keys, report.keygen),
        measured_by(clock, Phase::Server0, report.s0.wall),
        measured_by(clock, Phase::Server1, report.s1.wall),
        measured_by(clock, Phase::Verify, report.verify_wall),
{
}

} // verus!
