use pir_bench::kinds::{Backend, BackendIds, Level};
use pir_bench::random::{query_for_trial, splitmix64, target_bin, trial_seed};

#[test]
fn generator_yields_the_known_sequence() {
    let mut state = 0u64;
    assert_eq!(splitmix64(&mut state), 0xe220a8397b1dcdaf);
    assert_eq!(state, 0x9e3779b97f4a7c15);
    assert_eq!(splitmix64(&mut state), 0x6e789e6aa1b965f4);
    assert_eq!(splitmix64(&mut state), 0x06c45d188009454f);
}

#[test]
fn seeds_of_round_trials() {
    assert_eq!(trial_seed(0, 0, 0), 0x4250_4952_4450_4600);
    assert_eq!(trial_seed(1, 1000, 120), 0x4250_592a_4450_445b);
    assert_eq!(trial_seed(30, 77, 5), 0x4251_a957_4450_74b7);
}

#[test]
fn bins_of_merkle_trials() {
    let index: Vec<usize> = (0..4).map(|g| target_bin(1, g, 1000, Level::Index)).collect();
    assert_eq!(index, vec![485, 110, 181, 264]);
    let chunk: Vec<usize> = (0..4).map(|g| target_bin(1, g, 1000, Level::Chunk)).collect();
    assert_eq!(chunk, vec![558, 711, 14, 29]);
    assert_eq!(target_bin(30, 74, 123457, Level::Chunk), 33918);
    assert_eq!(target_bin(3, 5, 1, Level::Index), 0);
}

#[test]
fn queries_of_online_trials() {
    let ids = BackendIds { hmr12: 0, fast_prp: 1 };
    let hmr: Vec<usize> =
        (0..4).map(|g| query_for_trial(1, g, 1000, 96, Backend::Hmr12, &ids)).collect();
    assert_eq!(hmr, vec![39, 132, 127, 673]);
    let fast: Vec<usize> =
        (0..4).map(|g| query_for_trial(1, g, 1000, 96, Backend::FastPrp, &ids)).collect();
    assert_eq!(fast, vec![763, 595, 730, 652]);
}
