use pir_bench::cli::{parse_args, Args, Tool};
use pir_bench::kinds::{Backend, Level};

fn parse(tool: Tool, argv: &[&str]) -> Option<Args> {
    let argv: Vec<String> = argv.iter().map(|s| s.to_string()).collect();
    parse_args(tool, &argv)
}

const TOOLS: [Tool; 4] =
    [Tool::DpfRound, Tool::HarmonyHint, Tool::HarmonyOnline, Tool::MerkleRound];

#[test]
fn defaults() {
    for tool in TOOLS {
        let args = parse(tool, &[]).unwrap();
        assert_eq!(args.data_root, "/Volumes/Bitcoin/data");
        assert_eq!(args.trials, if tool == Tool::MerkleRound { 30 } else { 3 });
        assert_eq!(args.warmups, 1);
        assert_eq!(args.database, None);
        assert_eq!(args.level, None);
        assert_eq!(args.backend, None);
    }
}

#[test]
fn all_flags() {
    let args = parse(
        Tool::HarmonyOnline,
        &[
            "--data-root", "/data", "--trials", "30", "--warmups", "0", "--database",
            "full_948454", "--level", "chunk", "--backend", "hmr12",
        ],
    )
    .unwrap();
    assert_eq!(args.data_root, "/data");
    assert_eq!(args.trials, 30);
    assert_eq!(args.warmups, 0);
    assert_eq!(args.database, Some("full_948454".to_string()));
    assert_eq!(args.level, Some(Level::Chunk));
    assert_eq!(args.backend, Some(Backend::Hmr12));
}

#[test]
fn choices_of_level_and_backend() {
    for tool in TOOLS {
        assert_eq!(parse(tool, &["--level", "index"]).unwrap().level, Some(Level::Index));
        assert_eq!(parse(tool, &["--level", "all"]).unwrap().level, None);
        assert!(parse(tool, &["--level", "Index"]).is_none());
    }
    for tool in [Tool::HarmonyHint, Tool::HarmonyOnline] {
        let args = parse(tool, &["--backend", "fastprp"]).unwrap();
        assert_eq!(args.backend, Some(Backend::FastPrp));
        assert_eq!(parse(tool, &["--backend", "all"]).unwrap().backend, None);
        assert!(parse(tool, &["--backend", "aes"]).is_none());
    }
    assert!(parse(Tool::DpfRound, &["--backend", "hmr12"]).is_none());
    assert!(parse(Tool::MerkleRound, &["--backend", "all"]).is_none());
}

#[test]
fn usage_is_shown_instead() {
    for tool in TOOLS {
        for argv in [
            vec!["-h"],
            vec!["--help"],
            vec!["--help", "x"],
            vec!["--verbose", "1"],
            vec!["stray"],
            vec!["--trials"],
            vec!["--trials", "many"],
            vec!["--trials", "-1"],
            vec!["--warmups", ""],
            vec!["--warmups", "99999999999999999999999999"],
            vec!["--data-root", "/data", "--database"],
            vec!["--trials", "3", "--level", "both"],
        ] {
            assert!(parse(tool, &argv).is_none(), "{:?}", argv);
        }
    }
}

#[test]
fn the_last_flag_wins() {
    let args = parse(
        Tool::DpfRound,
        &["--trials", "4", "--level", "index", "--trials", "+5", "--level", "all"],
    )
    .unwrap();
    assert_eq!(args.trials, 5);
    assert_eq!(args.level, None);
}

#[test]
fn a_flag_takes_the_next_argument_whatever_it_is() {
    let args = parse(Tool::DpfRound, &["--data-root", "--trials", "--database", "--help"]).unwrap();
    assert_eq!(args.data_root, "--trials");
    assert_eq!(args.database, Some("--help".to_string()));
    assert_eq!(args.trials, 3);
}

#[test]
fn usage_texts() {
    assert_eq!(
        Tool::DpfRound.usage(),
        "usage: dpf-round-bench [--data-root PATH] [--trials N] [--warmups N] [--database NAME] [--level index|chunk]"
    );
    assert_eq!(
        Tool::HarmonyHint.usage(),
        "usage: harmony-hint-bench [--data-root PATH] [--trials N] [--warmups N] [--database NAME] [--level index|chunk|all] [--backend hmr12|fastprp|all]"
    );
    assert_eq!(
        Tool::HarmonyOnline.usage(),
        "usage: harmony-online-bench [--data-root PATH] [--trials N] [--warmups N] [--database NAME] [--level index|chunk|all] [--backend hmr12|fastprp|all]"
    );
    assert_eq!(
        Tool::MerkleRound.usage(),
        "usage: merkle-round-bench [--data-root PATH] [--trials N] [--warmups N] [--database NAME] [--level index|chunk|all]"
    );
}
