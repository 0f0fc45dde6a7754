use pir_bench::bytes::Hash256;
use pir_bench::kinds::{Level, LevelParams, TableParams};
use pir_bench::tree::{
    check_trees, parse_tree_tops, read_roots, TreeCheckError, TreeTop, TreeTopError,
};

fn hash(n: u8) -> Hash256 {
    [n; 32]
}

fn top_bytes(cache_from: u8, total: u32, arity: u16, levels: &[Vec<Hash256>]) -> Vec<u8> {
    let mut out = vec![cache_from];
    out.extend_from_slice(&total.to_le_bytes());
    out.extend_from_slice(&arity.to_le_bytes());
    out.push(levels.len() as u8);
    for level in levels {
        out.extend_from_slice(&(level.len() as u32).to_le_bytes());
        for h in level {
            out.extend_from_slice(h);
        }
    }
    out
}

fn file(tops: &[Vec<u8>]) -> Vec<u8> {
    let mut out = (tops.len() as u32).to_le_bytes().to_vec();
    for top in tops {
        out.extend_from_slice(top);
    }
    out
}

fn sample() -> Vec<u8> {
    file(&[
        top_bytes(2, 999, 8, &[vec![hash(1), hash(2)], vec![hash(3)]]),
        top_bytes(255, 0, 300, &[]),
        top_bytes(0, u32::MAX, 8, &[vec![]]),
    ])
}

#[test]
fn what_is_written_is_read() {
    let tops = parse_tree_tops(&sample()).unwrap();
    assert_eq!(tops.len(), 3);
    assert_eq!((tops[0].cache_from, tops[0].arity), (2, 8));
    assert_eq!(tops[0].levels, vec![vec![hash(1), hash(2)], vec![hash(3)]]);
    assert_eq!((tops[1].cache_from, tops[1].arity), (255, 300));
    assert!(tops[1].levels.is_empty());
    assert_eq!(tops[2].levels, vec![Vec::<Hash256>::new()]);
    assert!(parse_tree_tops(&file(&[])).unwrap().is_empty());
}

#[test]
fn the_number_of_nodes_does_not_matter() {
    let levels = [vec![hash(9)]];
    let a = parse_tree_tops(&file(&[top_bytes(1, 5, 8, &levels)])).unwrap();
    let b = parse_tree_tops(&file(&[top_bytes(1, 6, 8, &levels)])).unwrap();
    assert_eq!(a[0].levels, b[0].levels);
    assert_eq!((a[0].cache_from, a[0].arity), (b[0].cache_from, b[0].arity));
}

fn error_of(data: &[u8]) -> Option<TreeTopError> {
    parse_tree_tops(data).err()
}

#[test]
fn files_that_end_too_early() {
    assert_eq!(error_of(&[]), Some(TreeTopError::TooShort));
    assert_eq!(error_of(&[1, 0, 0]), Some(TreeTopError::TooShort));
    assert_eq!(error_of(&[1, 0, 0, 0]), Some(TreeTopError::TruncatedRecord));
    let one = file(&[top_bytes(2, 9, 8, &[vec![hash(1), hash(2)], vec![hash(3)]])]);
    assert_eq!(error_of(&one[..11]), Some(TreeTopError::TruncatedRecord));
    assert_eq!(error_of(&one[..12]), Some(TreeTopError::TruncatedLevel));
    assert_eq!(error_of(&one[..15]), Some(TreeTopError::TruncatedLevel));
    assert_eq!(error_of(&one[..16]), Some(TreeTopError::TruncatedHashes));
    assert_eq!(error_of(&one[..79]), Some(TreeTopError::TruncatedHashes));
    assert_eq!(error_of(&one[..80]), Some(TreeTopError::TruncatedLevel));
    assert_eq!(error_of(&one[..one.len() - 1]), Some(TreeTopError::TruncatedHashes));
    assert_eq!(error_of(&one), None);
}

#[test]
fn every_cut_of_a_file_is_refused() {
    let data = sample();
    for n in 0..data.len() {
        assert!(error_of(&data[..n]).is_some(), "{}", n);
    }
}

#[test]
fn bytes_after_the_last_tree() {
    let mut data = sample();
    data.push(0);
    assert_eq!(error_of(&data), Some(TreeTopError::TrailingBytes(1)));
    data.extend_from_slice(&[0; 40]);
    assert_eq!(error_of(&data), Some(TreeTopError::TrailingBytes(41)));
}

#[test]
fn a_level_that_claims_more_nodes_than_fit() {
    let mut data = file(&[top_bytes(0, 0, 8, &[vec![hash(1)]])]);
    data[12..16].copy_from_slice(&u32::MAX.to_le_bytes());
    assert_eq!(error_of(&data), Some(TreeTopError::TruncatedHashes));
}

#[test]
fn roots_are_read() {
    let data: Vec<u8> = (0..96).collect();
    let roots = read_roots(&data).unwrap();
    assert_eq!(roots.len(), 3);
    assert_eq!(roots.concat(), data);
    assert!(read_roots(&[]).unwrap().is_empty());
    assert!(read_roots(&data[..95]).is_none());
    assert!(read_roots(&[0]).is_none());
}

fn levels(index: usize, chunk: usize) -> LevelParams {
    let table = TableParams {
        k: index,
        num_hashes: 0,
        master_seed: 0,
        slots_per_bin: 1,
        cuckoo_num_hashes: 2,
        slot_size: 2,
        dpf_n: 0,
        magic: 0,
        header_size: 4,
        has_tag_seed: false,
    };
    LevelParams { index: table, chunk: TableParams { k: chunk, ..table } }
}

fn tops(cache_from: &[usize]) -> Vec<TreeTop> {
    cache_from.iter().map(|&c| TreeTop { cache_from: c, arity: 8, levels: vec![] }).collect()
}

#[test]
fn trees_that_fit() {
    let all = levels(2, 3);
    let tops = tops(&[4, 4, 1, 1, 1]);
    let roots = vec![hash(0); 5];
    assert_eq!(check_trees(&tops, &roots, Level::Index, &all, 4), Ok(()));
    assert_eq!(check_trees(&tops, &roots, Level::Chunk, &all, 1), Ok(()));
}

#[test]
fn trees_that_are_too_few_or_too_many() {
    let all = levels(2, 3);
    let wrong = Err(TreeCheckError::Count { expected: 5 });
    let good = tops(&[1; 5]);
    let roots = vec![hash(0); 5];
    assert_eq!(check_trees(&tops(&[1; 4]), &roots, Level::Index, &all, 1), wrong);
    assert_eq!(check_trees(&good, &vec![hash(0); 6], Level::Index, &all, 1), wrong);
    assert_eq!(check_trees(&good, &roots, Level::Index, &all, 1), Ok(()));
}

#[test]
fn trees_that_start_elsewhere() {
    let all = levels(2, 3);
    let tops = tops(&[4, 3, 1, 1, 7]);
    let roots = vec![hash(0); 5];
    assert_eq!(
        check_trees(&tops, &roots, Level::Index, &all, 4),
        Err(TreeCheckError::CacheFrom { group: 1, cache_from: 3 })
    );
    assert_eq!(
        check_trees(&tops, &roots, Level::Chunk, &all, 1),
        Err(TreeCheckError::CacheFrom { group: 2, cache_from: 7 })
    );
    assert_eq!(
        check_trees(&tops, &roots, Level::Chunk, &all, 7),
        Err(TreeCheckError::CacheFrom { group: 0, cache_from: 1 })
    );
}
