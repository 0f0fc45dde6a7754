use pir_bench::bytes::{checksum_bytes, xor_into};
use pir_bench::hints::{
    generate_hint_bundle, generate_hints_for_group, hints_from_cells, hints_of_group,
    protocol_group_id, run_trial, summarize_hints, total_bytes, HintParams, HintRun, HintSummary,
};
use pir_bench::kinds::{Backend, BackendIds, Level, LevelParams, TableParams};
use pir_bench::timing::{Mark, Phase};

fn params() -> HintParams {
    // Five entries of two bytes, padded to six; twelve cells in six segments.
    HintParams::new(3, 5, 2, 6, 2, 6, 4, 3, 4)
}

fn levels() -> LevelParams {
    let table = TableParams {
        k: 3,
        num_hashes: 0,
        master_seed: 0,
        slots_per_bin: 1,
        cuckoo_num_hashes: 2,
        slot_size: 2,
        dpf_n: 0,
        magic: 0,
        header_size: 4,
        has_tag_seed: false,
    };
    LevelParams { index: table, chunk: table }
}

fn derive(key: &[u8; 16], group: u32) -> u64 {
    key[0] as u64 * 1000 + group as u64
}

fn fast(key: &u64, domain: usize) -> Vec<usize> {
    (0..domain).map(|i| (i * 5 + *key as usize) % domain).collect()
}

fn hoang(domain: usize, rounds: usize, key: &u64) -> Vec<usize> {
    (0..domain).map(|i| (i * 7 + rounds + *key as usize) % domain).collect()
}

#[test]
fn the_number_of_cells() {
    let hp = params();
    assert_eq!(hp.domain, 12);
    assert_eq!((hp.k, hp.bins_per_table, hp.entry_size, hp.padded_n), (3, 5, 2, 6));
    assert_eq!((hp.t, hp.m, hp.rounds, hp.max_queries, hp.header_size), (2, 6, 4, 3, 4));
}

#[test]
fn hints_combine_the_entries_of_a_segment() {
    let table = [1, 10, 2, 20, 4, 40, 8, 80, 16, 160];
    // Entries 0 and 3 share segment 0, entries 1 and 2 segment 5, entry 4 has segment 2.
    let cells = vec![0, 10, 11, 1, 4, 7, 2, 3, 5, 6, 8, 9];
    let (hints, sum) = hints_from_cells(&cells, &table, &params());
    assert_eq!(
        hints,
        vec![1 ^ 8, 10 ^ 80, 0, 0, 16, 160, 0, 0, 0, 0, 2 ^ 4, 20 ^ 40]
    );
    assert_eq!(sum, checksum_bytes(&hints));
}

#[test]
fn entries_beyond_the_padding_take_no_part() {
    let hp = HintParams { padded_n: 2, ..params() };
    let table = [1, 10, 2, 20, 4, 40, 8, 80, 16, 160];
    let (hints, _) = hints_from_cells(&vec![0, 10], &table, &hp);
    assert_eq!(hints, vec![1, 10, 0, 0, 0, 0, 0, 0, 0, 0, 2, 20]);
}

#[test]
fn each_backend_lays_out_its_own_cells() {
    let hp = params();
    let table = [1, 10, 2, 20, 4, 40, 8, 80, 16, 160];
    let key = [7u8; 16];
    let made = generate_hints_for_group(
        Backend::FastPrp, &key, 9, &table, &hp, &derive, &fast, &hoang,
    );
    assert_eq!(made, hints_from_cells(&fast(&7009, 12), &table, &hp));
    let made = generate_hints_for_group(
        Backend::Hmr12, &key, 9, &table, &hp, &derive, &fast, &hoang,
    );
    assert_eq!(made, hints_from_cells(&hoang(12, 4, &7009), &table, &hp));
}

#[test]
fn hints_of_one_group_of_a_file() {
    let hp = params();
    let data: Vec<u8> = (0..34).collect();
    let key = [1u8; 16];
    let made = hints_of_group(
        Level::Chunk, &levels(), Backend::FastPrp, &key, &data, &hp, 2, &derive, &fast, &hoang,
    );
    assert_eq!(made, hints_from_cells(&fast(&1005, 12), &data[24..34], &hp));
}

#[test]
fn groups_are_numbered_through_both_levels() {
    assert_eq!(protocol_group_id(Level::Index, &levels(), 2), 2);
    assert_eq!(protocol_group_id(Level::Chunk, &levels(), 0), 3);
    assert_eq!(protocol_group_id(Level::Chunk, &levels(), 2), 5);
}

#[test]
fn hints_of_all_groups() {
    let hp = params();
    let data: Vec<u8> = (0..34).collect();
    let key = [3u8; 16];
    for backend in [Backend::Hmr12, Backend::FastPrp] {
        let one = |g: usize| {
            hints_of_group(
                Level::Chunk, &levels(), backend, &key, &data, &hp, g, &derive, &fast, &hoang,
            )
        };
        let clock = |mark: Mark| match mark {
            Mark::Start(phase) => {
                assert_eq!(phase, Phase::Hints);
                7
            }
            Mark::End(phase) => {
                assert_eq!(phase, Phase::Hints);
                18
            }
        };
        let bundle = generate_hint_bundle(
            Level::Chunk, &levels(), backend, &key, &data, &hp, &derive, &fast, &hoang, clock,
        );
        assert_eq!(bundle.hints, vec![one(0).0, one(1).0, one(2).0]);
        assert_eq!((bundle.generation, bundle.checksum), (11, one(0).1 ^ one(1).1 ^ one(2).1));
        assert_eq!(total_bytes(&bundle.hints), 36);
        let run = run_trial(
            Level::Chunk, &levels(), backend, &key, &data, &hp, &derive, &fast, &hoang, clock,
        );
        assert_eq!(run, HintRun { wall: 11, hints_bytes: 36, checksum: bundle.checksum });
    }
}

#[test]
fn bytes_add_up() {
    assert_eq!(total_bytes(&vec![vec![1, 2], vec![], vec![3]]), 3);
    assert_eq!(total_bytes(&vec![]), 0);
}

#[test]
fn summary_of_hints() {
    let ids = BackendIds { hmr12: 0, fast_prp: 3 };
    let hp = HintParams { t: 4, padded_n: 10, ..params() };
    let run = HintRun { wall: 1, hints_bytes: 37, checksum: 8 };
    assert_eq!(
        summarize_hints(&hp, &run, Backend::FastPrp, &ids),
        HintSummary {
            max_queries: 2,
            hints_per_group: 12,
            request_bytes: 12,
            response_bytes: 6,
            checksum: 11,
        }
    );
    assert_eq!(summarize_hints(&hp, &run, Backend::Hmr12, &ids).checksum, 8);
}

#[test]
fn hints_of_combined_tables_combine() {
    let hp = params();
    let a: Vec<u8> = vec![1, 10, 2, 20, 4, 40, 8, 80, 16, 160];
    let b: Vec<u8> = vec![7, 0, 255, 3, 3, 9, 27, 81, 243, 5];
    let mut both = a.clone();
    xor_into(&mut both, &b);
    for backend in [Backend::Hmr12, Backend::FastPrp] {
        let hints = |table: &[u8]| {
            generate_hints_for_group(
                backend, &[7; 16], 9, table, &hp, &derive, &fast, &hoang,
            )
            .0
        };
        let mut combined = hints(&a);
        xor_into(&mut combined, &hints(&b));
        assert_eq!(hints(&both), combined);
        assert_ne!(hints(&a), hints(&both));
        assert_eq!(hints(&[0; 10]), vec![0; 12]);
    }
}
