use pir_bench::bytes::{checksum_bytes, xor_into, Hash256};
use pir_bench::kinds::{Level, MERKLE_ROW_SIZE};
use pir_bench::layout::{bin_slice, table_layout, TableLayout};
use pir_bench::merkle::{
    artifact_bytes, generate_keys, process_server, process_sibling_group, summarize_merkle,
    ArtifactBytes, MerkleServerRun, MerkleSummary, RowRun, SiblingTable,
};
use pir_bench::merkle_trial::{run_trial, MerkleReport};
use pir_bench::path::{verify_trial, TrialEvidence};
use pir_bench::random::target_bin;
use pir_bench::tally::Verdict;
use pir_bench::timing::{Mark, Phase, PhaseTimes};
use pir_bench::tree::TreeTop;

const K: usize = 3;
const BINS: usize = 70;

/// A key that selects rows by a fixed pattern; the two keys for a row differ in that row alone.
#[derive(Clone, Debug, PartialEq)]
struct Key {
    alpha: u64,
    dpf_n: u8,
    second: bool,
}

fn gen(alpha: u64, dpf_n: u8) -> (Key, Key) {
    (Key { alpha, dpf_n, second: false }, Key { alpha, dpf_n, second: true })
}

fn eval(key: &Key, table: &[u8], bins: usize, row_size: usize) -> (Vec<Vec<u8>>, PhaseTimes) {
    let mut row = vec![0u8; row_size];
    for b in 0..bins {
        let picked = b % 3 == 1;
        if picked != (key.second && b as u64 == key.alpha) {
            xor_into(&mut row, &table[b * row_size..(b + 1) * row_size]);
        }
    }
    (vec![row, vec![1, 2, 3]], PhaseTimes { dpf_eval: 2, fetch_xor: 7 })
}

fn digest(tag: u64, bytes: &[u8]) -> Hash256 {
    let mut h = [0u8; 32];
    for i in 0..4u64 {
        let mut input = (tag * 16 + i).to_le_bytes().to_vec();
        input.extend_from_slice(bytes);
        let at = 8 * i as usize;
        h[at..at + 8].copy_from_slice(&checksum_bytes(&input).to_le_bytes());
    }
    h
}

fn leaf_hash(bin: u32, content: &[u8]) -> Hash256 {
    digest(1 + bin as u64 * 2, content)
}

fn parent_hash(children: &Vec<Hash256>) -> Hash256 {
    assert_eq!(children.len(), 8);
    digest(0, &children.concat())
}

fn child(nodes: &[Hash256], i: usize) -> Hash256 {
    if i < nodes.len() {
        nodes[i]
    } else {
        [0; 32]
    }
}

fn above(nodes: &[Hash256]) -> Vec<Hash256> {
    (0..nodes.len().div_ceil(8))
        .map(|p| parent_hash(&(0..8).map(|c| child(nodes, 8 * p + c)).collect()))
        .collect()
}

/// The tables, their trees, the sibling tables of the lowest `siblings` levels, and the tree tops.
struct World {
    level: Level,
    data: Vec<u8>,
    layout: TableLayout,
    tables: Vec<(Vec<u8>, TableLayout)>,
    tops: Vec<TreeTop>,
    roots: Vec<Hash256>,
    offset: usize,
}

fn world(level: Level, siblings: usize) -> World {
    let data: Vec<u8> = (0..(12 + K * BINS * 5) as u32).map(|i| (i * i % 249) as u8).collect();
    let layout = table_layout(data.len(), 12, K, BINS, 5).unwrap();
    let mut trees: Vec<Vec<Vec<Hash256>>> = Vec::new();
    for group in 0..K {
        let leaves: Vec<Hash256> = (0..BINS)
            .map(|b| leaf_hash(b as u32, bin_slice(&data, 12, BINS * 5, 5, group, b)))
            .collect();
        let mut tree = vec![leaves];
        while tree.last().unwrap().len() > 1 {
            let next = above(tree.last().unwrap());
            tree.push(next);
        }
        trees.push(tree);
    }
    let mut tables = Vec::new();
    for d in 0..siblings {
        let rows = trees[0][d].len().div_ceil(8);
        let mut bytes = vec![0u8; 32];
        for tree in &trees {
            for r in 0..rows {
                for c in 0..8 {
                    bytes.extend_from_slice(&child(&tree[d], 8 * r + c));
                }
            }
        }
        let l = table_layout(bytes.len(), 32, K, rows, MERKLE_ROW_SIZE).unwrap();
        tables.push((bytes, l));
    }
    let offset = if level == Level::Index { 0 } else { 2 };
    let filler = || TreeTop { cache_from: siblings, arity: 8, levels: vec![] };
    let mut tops: Vec<TreeTop> = (0..offset).map(|_| filler()).collect();
    let mut roots = vec![[9u8; 32]; offset];
    for tree in &trees {
        let levels = tree[siblings..].to_vec();
        tops.push(TreeTop { cache_from: siblings, arity: 8, levels });
        roots.push(tree.last().unwrap()[0]);
    }
    World { level, data, layout, tables, tops, roots, offset }
}

fn sibling_tables(w: &World) -> Vec<SiblingTable<'_>> {
    w.tables.iter().map(|(bytes, l)| SiblingTable { data: bytes, layout: *l }).collect()
}

fn trial(w: &World, trial_index: usize) -> MerkleReport {
    timed_trial(w, trial_index, |_: Mark| 1)
}

fn timed_trial<C: Fn(Mark) -> u128>(w: &World, trial_index: usize, clock: C) -> MerkleReport {
    run_trial(
        w.level,
        trial_index,
        true,
        &w.layout,
        &w.data,
        &sibling_tables(w),
        w.offset,
        &w.tops,
        &w.roots,
        |_: usize| 9,
        gen,
        eval,
        leaf_hash,
        parent_hash,
        clock,
    )
    .unwrap()
}

/// A sibling table of which only the number of bins matters.
fn bare(bins_per_table: usize) -> SiblingTable<'static> {
    let layout = TableLayout {
        header_size: 32,
        k: 2,
        bins_per_table,
        result_size: MERKLE_ROW_SIZE,
        table_byte_size: bins_per_table * MERKLE_ROW_SIZE,
        file_bytes: 0,
    };
    SiblingTable { data: &[], layout }
}

fn domain(bins: usize) -> u8 {
    if bins > 2 {
        4
    } else {
        1
    }
}

#[test]
fn rows_on_the_path_are_queried() {
    let tables = vec![bare(125), bare(16), bare(2)];
    let domain = |bins: usize| match bins {
        125 => 7,
        16 => 4,
        2 => 1,
        _ => unreachable!(),
    };
    let keys = generate_keys(Level::Chunk, 5, 1000, 2, &tables, &domain, &gen);
    assert_eq!(keys.targets.len(), 3);
    for group in 0..2 {
        let bin = target_bin(5, group, 1000, Level::Chunk);
        assert_eq!(keys.targets[0][group], bin / 8);
        assert_eq!(keys.targets[1][group], bin / 64);
        assert_eq!(keys.targets[2][group], bin / 512);
        let alpha = (bin / 64) as u64;
        assert_eq!(keys.server0[1][group], Key { alpha, dpf_n: 4, second: false });
        assert_eq!(keys.server1[1][group], Key { alpha, dpf_n: 4, second: true });
    }
    // Keys of 145, 97 and 49 bytes for each of two groups.
    assert_eq!(keys.upload_per_server, 2 * (145 + 97 + 49));
    let none = generate_keys(Level::Index, 5, 0, 2, &vec![], &domain, &gen);
    assert_eq!((none.targets.len(), none.upload_per_server), (0, 0));
}

#[test]
fn one_group_of_a_sibling_table() {
    let w = world(Level::Index, 1);
    let (bytes, l) = &w.tables[0];
    let (k0, k1) = gen(4, 9);
    let run = |k: &Key| process_sibling_group(k, &sibling_tables(&w)[0], 2, &eval);
    let (a, b) = (run(&k0), run(&k1));
    assert_eq!(a.checksum, checksum_bytes(&a.row));
    assert_eq!(a.times, PhaseTimes { dpf_eval: 2, fetch_xor: 7 });
    let mut row = a.row.clone();
    xor_into(&mut row, &b.row);
    assert_eq!(&row[..], bin_slice(bytes, 32, l.table_byte_size, 256, 2, 4));
}

#[test]
fn work_on_sibling_tables_adds_up() {
    let row = |n: u8, d: u128, f: u128, checksum: u64| RowRun {
        row: vec![n],
        times: PhaseTimes { dpf_eval: d, fetch_xor: f },
        checksum,
    };
    let mut run = MerkleServerRun::new();
    run.add_level(vec![row(1, 1, 10, 1), row(2, 2, 20, 2)]);
    run.add_level(vec![row(3, 4, 40, 4)]);
    run.add_level(vec![]);
    assert_eq!(run.outputs, vec![vec![vec![1], vec![2]], vec![vec![3]], vec![]]);
    assert_eq!((run.wall, run.dpf_sum, run.fetch_sum, run.checksum), (0, 7, 70, 7));
}

#[test]
fn a_server_works_on_all_sibling_tables() {
    let w = world(Level::Index, 2);
    let tables = sibling_tables(&w);
    let keys = generate_keys(Level::Index, 1, BINS, K, &tables, &domain, &gen);
    let clock = |mark: Mark| match mark {
        Mark::Start(phase) => {
            assert_eq!(phase, Phase::Server1);
            8
        }
        Mark::End(phase) => {
            assert_eq!(phase, Phase::Server1);
            19
        }
    };
    let run = process_server(&keys.server1, &tables, &eval, Phase::Server1, &clock);
    assert_eq!(run.outputs.len(), 2);
    let mut sum = 0;
    for d in 0..2 {
        assert_eq!(run.outputs[d].len(), K);
        for g in 0..K {
            let one = process_sibling_group(&keys.server1[d][g], &tables[d], g, &eval);
            assert_eq!(run.outputs[d][g], one.row);
            sum ^= one.checksum;
        }
    }
    assert_eq!((run.wall, run.dpf_sum, run.fetch_sum, run.checksum), (11, 12, 42, sum));
}

#[test]
fn keys_beyond_the_last_table_are_not_used() {
    let w = world(Level::Index, 2);
    let mut tables = sibling_tables(&w);
    let keys = generate_keys(Level::Index, 1, BINS, K, &tables, &domain, &gen);
    let clock = |_: Mark| 0;
    let all = process_server(&keys.server0, &tables, &eval, Phase::Server0, &clock);
    tables.pop();
    let lower = process_server(&keys.server0, &tables, &eval, Phase::Server0, &clock);
    assert_eq!(lower.outputs[..], all.outputs[..1]);
    assert_eq!((lower.dpf_sum, lower.fetch_sum), (6, 21));
    let none = process_server(&keys.server0, &vec![], &eval, Phase::Server0, &clock);
    assert!(none.outputs.is_empty());
}

#[test]
fn the_phases_of_a_merkle_trial() {
    let w = world(Level::Index, 2);
    let report = timed_trial(&w, 2, |mark: Mark| match mark {
        Mark::Start(_) => 100,
        Mark::End(Phase::Keys) => 101,
        Mark::End(Phase::Server0) => 103,
        Mark::End(Phase::Server1) => 107,
        Mark::End(Phase::Verify) => 115,
        Mark::End(_) => unreachable!(),
    });
    assert_eq!((report.keygen, report.verify_wall), (1, 15));
    assert_eq!((report.s0.wall, report.s1.wall), (3, 7));
    assert_eq!(report.summary.total_parallel, 23);
}

#[test]
fn trials_over_trees_verify() {
    for level in [Level::Index, Level::Chunk] {
        for siblings in 0..4 {
            let w = world(level, siblings);
            for trial_index in 0..6 {
                let report = trial(&w, trial_index);
                assert_eq!(report.verdict.failures, 0);
                let mut sum = 0;
                for group in 0..K {
                    let bin = target_bin(trial_index, group, BINS, level);
                    let content = bin_slice(&w.data, 12, BINS * 5, 5, group, bin);
                    sum ^= checksum_bytes(&leaf_hash(bin as u32, content));
                    sum ^= checksum_bytes(&w.roots[w.offset + group]);
                    let mut at = bin;
                    for (bytes, l) in &w.tables {
                        at /= 8;
                        let row = bin_slice(bytes, 32, l.table_byte_size, 256, group, at);
                        sum ^= checksum_bytes(row);
                    }
                }
                assert_eq!(report.verdict.checksum, sum);
                assert_eq!(report.summary.download_per_server, siblings * K * 256);
                assert_eq!(report.upload_per_server, siblings * K * 178);
            }
        }
    }
}

#[test]
fn changed_content_fails() {
    let mut w = world(Level::Index, 1);
    let bin = target_bin(3, 1, BINS, Level::Index);
    w.data[12 + BINS * 5 + bin * 5] ^= 1;
    assert_eq!(trial(&w, 3).verdict.failures, 1);
}

#[test]
fn changed_siblings_fail() {
    let mut w = world(Level::Index, 2);
    let bin = target_bin(3, 0, BINS, Level::Index);
    let sibling = if bin % 8 == 0 { 1 } else { 0 };
    w.tables[0].0[32 + (bin / 8) * 256 + sibling * 32] ^= 1;
    assert_eq!(trial(&w, 3).verdict.failures, 1);
    // The path's own hash is taken from below, not from the row.
    let mut w = world(Level::Index, 2);
    w.tables[0].0[32 + (bin / 8) * 256 + (bin % 8) * 32] ^= 1;
    assert_eq!(trial(&w, 3).verdict.failures, 0);
}

#[test]
fn roots_that_are_not_listed_fail() {
    let mut w = world(Level::Chunk, 1);
    w.roots[3][0] ^= 1;
    assert_eq!(trial(&w, 2).verdict.failures, 1);
    w.roots.pop();
    assert_eq!(trial(&w, 2).verdict.failures, 2);
}

#[test]
fn another_root_fails_twice() {
    let mut w = world(Level::Index, 1);
    w.tops[0].levels.last_mut().unwrap()[0][31] ^= 1;
    assert_eq!(trial(&w, 2).verdict.failures, 2);
}

#[test]
fn tree_tops_that_cannot_be_used_fail_once() {
    let mut w = world(Level::Index, 1);
    w.tops[0].arity = 2;
    w.tops[2].cache_from = 0;
    let report = trial(&w, 2);
    assert_eq!(report.verdict.failures, 2);
}

#[test]
fn an_empty_tree_top_has_the_zero_root() {
    let mut w = world(Level::Index, 1);
    w.tops[1].levels.clear();
    w.roots[1] = [0; 32];
    // The root is listed, but the path does not lead to it.
    assert_eq!(trial(&w, 2).verdict.failures, 1);
}

#[test]
fn queries_off_the_path_fail() {
    let w = world(Level::Index, 2);
    let tables = sibling_tables(&w);
    let keys = generate_keys(Level::Index, 4, BINS, K, &tables, &domain, &gen);
    let clock = |_: Mark| 0;
    let s0 = process_server(&keys.server0, &tables, &eval, Phase::Server0, &clock);
    let s1 = process_server(&keys.server1, &tables, &eval, Phase::Server1, &clock);
    let judge = |targets: &Vec<Vec<usize>>| {
        let evidence = TrialEvidence {
            level: Level::Index,
            trial_index: 4,
            k: K,
            tree_offset: 0,
            siblings: 2,
            data: &w.data,
            header_size: 12,
            bins_per_table: BINS,
            result_size: 5,
            table_byte_size: BINS * 5,
            targets,
            outputs0: &s0.outputs,
            outputs1: &s1.outputs,
            tree_tops: &w.tops,
            roots: &w.roots,
        };
        verify_trial(&evidence, leaf_hash, parent_hash).failures
    };
    assert_eq!(judge(&keys.targets), 0);
    let mut other = keys.targets.clone();
    other[0][2] += 1;
    assert_eq!(judge(&other), 1);
    other[1][0] += 5;
    assert_eq!(judge(&other), 2);
}

#[test]
fn a_merkle_warmup_reports_nothing() {
    let w = world(Level::Index, 1);
    let report = run_trial(
        w.level,
        0,
        false,
        &w.layout,
        &w.data,
        &sibling_tables(&w),
        0,
        &w.tops,
        &w.roots,
        domain,
        gen,
        eval,
        leaf_hash,
        parent_hash,
        |_: Mark| 0,
    );
    assert!(report.is_none());
}

#[test]
fn summary_of_a_merkle_round() {
    let server = |wall: u128, checksum: u64| MerkleServerRun {
        outputs: vec![],
        wall,
        dpf_sum: 0,
        fetch_sum: 0,
        checksum,
    };
    let verdict = Verdict { failures: 0, checksum: 4 };
    assert_eq!(
        summarize_merkle(75, 3, 10, &server(20, 1), &server(15, 2), &verdict, 5),
        MerkleSummary {
            server_parallel: 20,
            total_parallel: 35,
            verified_groups: 75,
            download_per_server: 3 * 75 * 256,
            checksum: 7,
        }
    );
}

#[test]
fn bytes_of_an_artifact() {
    let data = table_layout(1000, 8, 2, 3, 4).unwrap();
    let small = table_layout(600, 32, 1, 2, 256).unwrap();
    let large = table_layout(800, 32, 1, 3, 256).unwrap();
    assert_eq!(
        artifact_bytes(&data, &vec![small, large], 50),
        ArtifactBytes { sibling_bytes_total: 1400, file_bytes: 2450 }
    );
    assert_eq!(
        artifact_bytes(&data, &vec![], 0),
        ArtifactBytes { sibling_bytes_total: 0, file_bytes: 1000 }
    );
}
