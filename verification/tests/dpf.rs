use pir_bench::bytes::{checksum_bytes, xor_into};
use pir_bench::dpf::{
    collect_groups, dpf_key_wire_size, generate_keys, process_group, process_server,
    summarize_round, verify_outputs, GroupOutput, GroupRun, RoundSummary, ServerRun,
};
use pir_bench::dpf_trial::run_trial;
use pir_bench::kinds::Level;
use pir_bench::layout::{bin_slice, table_layout, TableLayout};
use pir_bench::random::trial_seed;
use pir_bench::tally::Verdict;
use pir_bench::timing::{Mark, Phase, PhaseTimes};
use std::cell::Cell;

/// A key that selects bins by a fixed pattern; the two keys for a bin differ in that bin alone.
#[derive(Clone, Debug, PartialEq)]
struct Key {
    alpha: u64,
    second: bool,
}

fn gen(alpha: u64, _dpf_n: u8) -> (Key, Key) {
    (Key { alpha, second: false }, Key { alpha, second: true })
}

fn select(key: &Key, table: &[u8], bins: usize) -> Vec<u8> {
    let size = table.len() / bins;
    let mut row = vec![0u8; size];
    for b in 0..bins {
        let picked = (b * 5 + 2) % 3 == 0;
        if picked != (key.second && b as u64 == key.alpha) {
            xor_into(&mut row, &table[b * size..(b + 1) * size]);
        }
    }
    row
}

const TIMES: PhaseTimes = PhaseTimes { dpf_eval: 3, fetch_xor: 5 };

fn index_eval(a: &Key, b: &Key, table: &[u8], bins: usize) -> (Vec<u8>, Vec<u8>, PhaseTimes) {
    (select(a, table, bins), select(b, table, bins), TIMES)
}

fn chunk_eval(a: &Key, b: &Key, table: &[u8], bins: usize) -> (Vec<Vec<u8>>, PhaseTimes) {
    (vec![select(a, table, bins), select(b, table, bins), vec![9]], TIMES)
}

fn sample() -> (Vec<u8>, TableLayout) {
    let data: Vec<u8> = (0..200u32).map(|i| (i * i % 251) as u8).collect();
    let l = table_layout(data.len(), 8, 4, 11, 4).unwrap();
    (data, l)
}

fn serve(level: Level, keys: &Vec<(Key, Key)>, data: &[u8], l: &TableLayout) -> ServerRun {
    let clock = |_: Mark| 0;
    process_server(level, keys, data, l, &index_eval, &chunk_eval, Phase::Server0, &clock)
}

#[test]
fn queries_come_from_the_seed() {
    let keys = generate_keys(3, 10, 4, trial_seed(1, 10, 4), &gen);
    assert_eq!(keys.targets, vec![(6, 0), (9, 5), (0, 3)]);
    assert_eq!(keys.server0[1].0, Key { alpha: 9, second: false });
    assert_eq!(keys.server0[1].1, Key { alpha: 5, second: false });
    assert_eq!(keys.server1[2].0, Key { alpha: 0, second: true });
    assert_eq!(keys.server1[2].1, Key { alpha: 3, second: true });
    assert_eq!(generate_keys(2, 5, 4, 7, &gen).targets, vec![(2, 4), (1, 3)]);
    assert!(generate_keys(0, 0, 4, 7, &gen).targets.is_empty());
}

#[test]
fn queried_bins_are_bins() {
    for trial in 0..20 {
        let keys = generate_keys(10, 7, 3, trial_seed(trial, 7, 4), &gen);
        assert!(keys.targets.iter().all(|&(a, b)| a < 7 && b < 7));
    }
}

#[test]
fn one_group_is_processed_over_its_table() {
    let (data, l) = sample();
    let keys = gen(3, 4);
    let pair = (keys.0.clone(), keys.1.clone());
    for level in [Level::Index, Level::Chunk] {
        let run = process_group(level, &pair, &data, &l, 2, &index_eval, &chunk_eval);
        let table = &data[8 + 2 * 44..8 + 3 * 44];
        assert_eq!(run.output.q0, select(&keys.0, table, 11));
        assert_eq!(run.output.q1, select(&keys.1, table, 11));
        assert_eq!(run.times, TIMES);
        assert_eq!(
            run.checksum,
            checksum_bytes(&run.output.q0) ^ checksum_bytes(&run.output.q1)
        );
    }
}

#[test]
fn groups_are_collected() {
    let run = |q0: Vec<u8>, d: u128, f: u128, checksum: u64| GroupRun {
        output: GroupOutput { q0, q1: vec![] },
        times: PhaseTimes { dpf_eval: d, fetch_xor: f },
        checksum,
    };
    let all = collect_groups(vec![run(vec![1], 10, 1, 6), run(vec![2], 20, 2, 3)], 77);
    assert_eq!(all.outputs.len(), 2);
    assert_eq!(all.outputs[0].q0, vec![1]);
    assert_eq!(all.outputs[1].q0, vec![2]);
    assert_eq!((all.wall, all.dpf_sum, all.fetch_sum, all.checksum), (77, 30, 3, 5));
}

#[test]
fn a_server_works_on_all_groups_in_order() {
    let data: Vec<u8> = (0..8 + 300 * 22u32).map(|i| (i * 7 % 253) as u8).collect();
    let l = table_layout(data.len(), 8, 300, 11, 2).unwrap();
    let keys = generate_keys(300, 11, 4, 5, &gen);
    let now = Cell::new(0u128);
    let clock = |mark: Mark| {
        assert!(mark == Mark::Start(Phase::Server1) || mark == Mark::End(Phase::Server1));
        now.set(now.get() + 3);
        now.get()
    };
    let run = process_server(
        Level::Index, &keys.server0, &data, &l, &index_eval, &chunk_eval, Phase::Server1, &clock,
    );
    assert_eq!(run.outputs.len(), 300);
    assert_eq!((run.wall, run.dpf_sum, run.fetch_sum), (3, 900, 1500));
    let mut sum = 0;
    for g in 0..300 {
        let one = process_group(
            Level::Index, &keys.server0[g], &data, &l, g, &index_eval, &chunk_eval,
        );
        assert_eq!(run.outputs[g].q0, one.output.q0);
        assert_eq!(run.outputs[g].q1, one.output.q1);
        sum ^= one.checksum;
    }
    assert_eq!(run.checksum, sum);
}

#[test]
fn honest_servers_verify() {
    let (data, l) = sample();
    for level in [Level::Index, Level::Chunk] {
        let keys = generate_keys(4, 11, 4, 99, &gen);
        let s0 = serve(level, &keys.server0, &data, &l);
        let s1 = serve(level, &keys.server1, &data, &l);
        let verdict =
            verify_outputs(&keys.targets, &s0.outputs, &s1.outputs, &data, 8, 4, 44);
        let mut sum = 0;
        for (g, &(a, b)) in keys.targets.iter().enumerate() {
            for bin in [a, b] {
                sum ^= checksum_bytes(bin_slice(&data, 8, 44, 4, g, bin as usize));
            }
        }
        assert_eq!(verdict, Verdict { failures: 0, checksum: sum });
        let mut row = s0.outputs[1].q0.clone();
        xor_into(&mut row, &s1.outputs[1].q0);
        let bin = keys.targets[1].0 as usize;
        assert_eq!(&row[..], bin_slice(&data, 8, 44, 4, 1, bin));
    }
}

#[test]
fn wrong_answers_are_counted() {
    let (data, l) = sample();
    let keys = generate_keys(4, 11, 4, 99, &gen);
    let mut s0 = serve(Level::Index, &keys.server0, &data, &l);
    let s1 = serve(Level::Index, &keys.server1, &data, &l);
    s0.outputs[0].q1[2] ^= 1;
    s0.outputs[3].q0[0] ^= 0x80;
    let verdict = verify_outputs(&keys.targets, &s0.outputs, &s1.outputs, &data, 8, 4, 44);
    assert_eq!(verdict.failures, 2);
    s0.outputs[3].q1.pop();
    let verdict = verify_outputs(&keys.targets, &s0.outputs, &s1.outputs, &data, 8, 4, 44);
    assert_eq!(verdict.failures, 3);
}

#[test]
fn sizes_of_keys() {
    let sizes: Vec<usize> =
        [0u8, 1, 8, 9, 20, 255].iter().map(|&n| dpf_key_wire_size(n)).collect();
    assert_eq!(sizes, vec![32, 49, 161, 178, 355, 4144]);
}

fn server(wall: u128, checksum: u64) -> ServerRun {
    ServerRun { outputs: vec![], wall, dpf_sum: 1, fetch_sum: 2, checksum }
}

#[test]
fn summary_of_a_round() {
    let (_, l) = sample();
    let verdict = Verdict { failures: 1, checksum: 4 };
    assert_eq!(
        summarize_round(&l, 2, 20, 100, &server(30, 1), &server(50, 2), &verdict, 7),
        RoundSummary {
            key_size: 355,
            body_bytes: 176,
            upload_per_server: 4 * 2 * 355,
            download_per_server: 4 * 2 * 4,
            verified_queries: 8,
            server_parallel: 50,
            server_sequential: 80,
            total_parallel: 157,
            total_local_sequential: 187,
            checksum: 7,
        }
    );
}

#[test]
fn a_whole_round() {
    let (data, l) = sample();
    for level in [Level::Index, Level::Chunk] {
        let clock = |mark: Mark| match mark {
            Mark::Start(_) => 100,
            Mark::End(Phase::Keys) => 101,
            Mark::End(Phase::Server0) => 103,
            Mark::End(Phase::Server1) => 107,
            Mark::End(Phase::Verify) => 115,
            Mark::End(_) => unreachable!(),
        };
        let report =
            run_trial(level, &l, 2, 4, 6, true, &data, gen, index_eval, chunk_eval, clock)
                .unwrap();
        assert_eq!(report.verdict.failures, 0);
        assert_eq!((report.keygen, report.verify_wall), (1, 15));
        assert_eq!((report.s0.wall, report.s1.wall), (3, 7));
        assert_eq!((report.s0.dpf_sum, report.s0.fetch_sum), (12, 20));
        assert_eq!(report.summary.total_parallel, 23);
        assert_eq!(report.summary.total_local_sequential, 26);
        assert_eq!(
            report.summary.checksum,
            report.s0.checksum ^ report.s1.checksum ^ report.verdict.checksum
        );
        let keys = generate_keys(4, 11, 4, trial_seed(6, 11, 4), &gen);
        let s0 = serve(level, &keys.server0, &data, &l);
        let s1 = serve(level, &keys.server1, &data, &l);
        assert_eq!((report.s0.checksum, report.s1.checksum), (s0.checksum, s1.checksum));
    }
}

#[test]
fn a_round_with_a_faulty_server() {
    let (data, l) = sample();
    let faulty = |a: &Key, b: &Key, table: &[u8], bins: usize| {
        let (q0, mut q1, times) = index_eval(a, b, table, bins);
        if a.second {
            q1[0] ^= 1;
        }
        (q0, q1, times)
    };
    let clock = |_: Mark| 5;
    let report =
        run_trial(Level::Index, &l, 2, 4, 6, true, &data, gen, faulty, chunk_eval, clock).unwrap();
    assert_eq!(report.verdict.failures, 4);
    assert_eq!((report.keygen, report.verify_wall), (0, 0));
}

#[test]
fn a_warmup_reports_nothing() {
    let (data, l) = sample();
    let clock = |_: Mark| 0;
    let report =
        run_trial(Level::Index, &l, 2, 4, 0, false, &data, gen, index_eval, chunk_eval, clock);
    assert!(report.is_none());
}
