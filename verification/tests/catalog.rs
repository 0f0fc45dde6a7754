use pir_bench::catalog::{
    candidate_artifacts, database_specs, next_sibling, required_files, selected_artifacts,
    selected_backends, selected_levels,
};
use pir_bench::cli::{parse_args, Args, Tool};
use pir_bench::kinds::{Backend, Level};

fn args_of(argv: &[&str]) -> Args {
    let argv: Vec<String> = argv.iter().map(|s| s.to_string()).collect();
    parse_args(Tool::HarmonyHint, &argv).unwrap()
}

fn names(args: &Args) -> Vec<(String, Level)> {
    candidate_artifacts(args).iter().map(|a| (a.database.name.to_string(), a.level)).collect()
}

#[test]
fn the_databases() {
    let dbs: Vec<(&str, &str, &str, &str)> =
        database_specs().iter().map(|d| (d.name, d.kind, d.parent_dir, d.dir)).collect();
    assert_eq!(
        dbs,
        vec![
            ("full_948454", "full", "checkpoints", "948454"),
            ("delta_940611_948454", "delta", "deltas", "940611_948454"),
            ("delta_940611_944000", "delta", "deltas", "940611_944000"),
        ]
    );
}

#[test]
fn chosen_levels_and_backends() {
    let all = args_of(&[]);
    assert_eq!(selected_levels(&all), vec![Level::Index, Level::Chunk]);
    assert_eq!(selected_backends(&all), vec![Backend::Hmr12, Backend::FastPrp]);
    let one = args_of(&["--level", "chunk", "--backend", "fastprp"]);
    assert_eq!(selected_levels(&one), vec![Level::Chunk]);
    assert_eq!(selected_backends(&one), vec![Backend::FastPrp]);
}

#[test]
fn candidates_in_order() {
    let expected: Vec<(String, Level)> =
        ["full_948454", "delta_940611_948454", "delta_940611_944000"]
            .iter()
            .flat_map(|n| vec![(n.to_string(), Level::Index), (n.to_string(), Level::Chunk)])
            .collect();
    assert_eq!(names(&args_of(&[])), expected);
    assert_eq!(names(&args_of(&["--database", "all"])), expected);
}

#[test]
fn candidates_of_one_database() {
    let args = args_of(&["--database", "delta_940611_944000", "--level", "index"]);
    assert_eq!(names(&args), vec![("delta_940611_944000".to_string(), Level::Index)]);
    assert!(names(&args_of(&["--database", "full"])).is_empty());
}

#[test]
fn files_that_have_to_exist() {
    assert_eq!(required_files(Tool::DpfRound, Level::Index), vec!["batch_pir_cuckoo.bin"]);
    assert_eq!(required_files(Tool::HarmonyHint, Level::Chunk), vec!["chunk_pir_cuckoo.bin"]);
    assert_eq!(required_files(Tool::HarmonyOnline, Level::Chunk), vec!["chunk_pir_cuckoo.bin"]);
    assert_eq!(
        required_files(Tool::MerkleRound, Level::Chunk),
        vec![
            "merkle_bucket_tree_tops.bin",
            "chunk_pir_cuckoo.bin",
            "merkle_bucket_chunk_sib_L0.bin",
        ]
    );
}

#[test]
fn artifacts_without_files_are_left_out() {
    let candidates = candidate_artifacts(&args_of(&["--level", "chunk"]));
    let kept = selected_artifacts(&candidates, &vec![false, true, true]);
    let kept: Vec<&str> = kept.iter().map(|a| a.database.name).collect();
    assert_eq!(kept, vec!["delta_940611_948454", "delta_940611_944000"]);
    assert!(selected_artifacts(&candidates, &vec![false, false, false]).is_empty());
}

#[test]
fn sibling_tables_end_at_the_first_gap() {
    assert_eq!(next_sibling(0, true), Some(0));
    assert_eq!(next_sibling(4, true), Some(4));
    assert_eq!(next_sibling(0, false), None);
    let load = |present: &[bool]| {
        let mut loaded = Vec::new();
        while let Some(depth) =
            next_sibling(loaded.len(), present.get(loaded.len()).copied().unwrap_or(false))
        {
            loaded.push(depth);
        }
        loaded
    };
    assert_eq!(load(&[true, true, false, true]), vec![0, 1]);
    assert_eq!(load(&[false, true]), Vec::<usize>::new());
    assert_eq!(load(&[true, true, true]), vec![0, 1, 2]);
}
