//! The command lines of the runners.
use crate::kinds::{Backend, Level};
use crate::text::{str_eq, try_parse_usize};
use vstd::prelude::*;

#[allow(unused_imports)]
use crate::text::{decimal_up_to, decimal_value};

verus! {

/// The runners.
#[derive(Clone, Copy, Debug, PartialEq, Eq, Structural)]
pub enum Tool {
    DpfRound,
    HarmonyHint,
    HarmonyOnline,
    MerkleRound,
}

/// What a command line asks for.
#[derive(Debug)]
pub struct Args {
    pub data_root: String,
    pub trials: usize,
    pub warmups: usize,
    pub database: Option<String>,
    pub level: Option<Level>,
    pub backend: Option<Backend>,
}

/// What an `Args` holds.
#[verifier::ext_equal]
pub struct ArgsView {
    pub data_root: Seq<char>,
    pub trials: nat,
    pub warmups: nat,
    pub database: Option<Seq<char>>,
    pub level: Option<Level>,
    pub backend: Option<Backend>,
}

/// The characters of an optional string.
pub open spec fn option_view(s: Option<String>) -> Option<Seq<char>> {
    match s {
        Some(s) => Some(s@),
        None => None,
    }
}

impl View for Args {
    type V = ArgsView;

    open spec fn view(&self) -> ArgsView {
        ArgsView {
            data_root: self.data_root@,
            trials: self.trials as nat,
            warmups: self.warmups as nat,
            database: option_view(self.database),
            level: self.level,
            backend: self.backend,
        }
    }
}

impl Tool {
    /// Whether the runner's command line can choose a permutation.
    pub open spec fn has_backend(self) -> bool {
        self is HarmonyHint || self is HarmonyOnline
    }

    /// What the runner does without arguments.
    pub open spec fn defaults(self) -> ArgsView {
        ArgsView {
            data_root: "/Volumes/Bitcoin/data"@,
            trials: if self is MerkleRound {
                30
            } else {
                3
            },
            warmups: 1,
            database: None,
            level: None,
            backend: None,
        }
    }

    /// How the runner is called.
    pub open spec fn usage_text(self) -> Seq<char> {
        match self {
            Tool::DpfRound => "usage: dpf-round-bench [--data-root PATH] [--trials N] [--warmups N] [--database NAME] [--level index|chunk]"@,
            Tool::HarmonyHint => "usage: harmony-hint-bench [--data-root PATH] [--trials N] [--warmups N] [--database NAME] [--level index|chunk|all] [--backend hmr12|fastprp|all]"@,
            Tool::HarmonyOnline => "usage: harmony-online-bench [--data-root PATH] [--trials N] [--warmups N] [--database NAME] [--level index|chunk|all] [--backend hmr12|fastprp|all]"@,
            Tool::MerkleRound => "usage: merkle-round-bench [--data-root PATH] [--trials N] [--warmups N] [--database NAME] [--level index|chunk|all]"@,
        }
    }

    /// How the runner is called.
    pub fn usage(self) -> (r: &'static str)
        ensures
            r@ == self.usage_text(),
    {
        match self {
            Tool::DpfRound => "usage: dpf-round-bench [--data-root PATH] [--trials N] [--warmups N] [--database NAME] [--level index|chunk]",
            Tool::HarmonyHint => "usage: harmony-hint-bench [--data-root PATH] [--trials N] [--warmups N] [--database NAME] [--level index|chunk|all] [--backend hmr12|fastprp|all]",
            Tool::HarmonyOnline => "usage: harmony-online-bench [--data-root PATH] [--trials N] [--warmups N] [--database NAME] [--level index|chunk|all] [--backend hmr12|fastprp|all]",
            Tool::MerkleRound => "usage: merkle-round-bench [--data-root PATH] [--trials N] [--warmups N] [--database NAME] [--level index|chunk|all]",
        }
    }
}

/// The choice of levels that `value` makes: one, or all (`Some(None)`), or none that is known.
pub open spec fn level_choice(value: Seq<char>) -> Option<Option<Level>> {
    if value == "index"@ {
        Some(Some(Level::Index))
    } else if value == "chunk"@ {
        Some(Some(Level::Chunk))
    } else if value == "all"@ {
        Some(None)
    } else {
        None
    }
}

/// The choice of permutations that `value` makes: one, or all (`Some(None)`), or none that is
/// known.
pub open spec fn backend_choice(value: Seq<char>) -> Option<Option<Backend>> {
    if value == "hmr12"@ {
        Some(Some(Backend::Hmr12))
    } else if value == "fastprp"@ {
        Some(Some(Backend::FastPrp))
    } else if value == "all"@ {
        Some(None)
    } else {
        None
    }
}

/// `args` after the flag `flag` with the value `value`, or nothing if the runner does not know the
/// flag or the value is not one of the flag's.
pub open spec fn with_flag(
    tool: Tool,
    args: ArgsView,
    flag: Seq<char>,
    value: Seq<char>,
) -> Option<ArgsView> {
    if flag == "--data-root"@ {
        Some(ArgsView { data_root: value, ..args })
    } else if flag == "--trials"@ {
        match decimal_up_to(value, usize::MAX as nat) {
            Some(trials) => Some(ArgsView { trials, ..args }),
            None => None,
        }
    } else if flag == "--warmups"@ {
        match decimal_up_to(value, usize::MAX as nat) {
            Some(warmups) => Some(ArgsView { warmups, ..args }),
            None => None,
        }
    } else if flag == "--database"@ {
        Some(ArgsView { database: Some(value), ..args })
    } else if flag == "--level"@ {
        match level_choice(value) {
            Some(level) => Some(ArgsView { level, ..args }),
            None => None,
        }
    } else if flag == "--backend"@ && tool.has_backend() {
        match backend_choice(value) {
            Some(backend) => Some(ArgsView { backend, ..args }),
            None => None,
        }
    } else {
        None
    }
}

/// `args` after the flags of `argv`, each of which is followed by its value; later flags override
/// earlier ones.
pub open spec fn with_flags(tool: Tool, args: ArgsView, argv: Seq<Seq<char>>) -> Option<ArgsView>
    decreases argv.len(),
{
    if argv.len() == 0 {
        Some(args)
    } else if argv.len() == 1 {
        None
    } else {
        match with_flag(tool, args, argv[0], argv[1]) {
            Some(next) => with_flags(tool, next, argv.skip(2)),
            None => None,
        }
    }
}

/// The characters of each argument.
pub open spec fn argv_view(argv: Seq<String>) -> Seq<Seq<char>> {
    argv.map_values(|s: String| s@)
}

/// The choice of levels that `value` makes.
fn parse_level(value: &str) -> (r: Option<Option<Level>>)
    ensures
        r == level_choice(value@),
{
    if str_eq(value, "index") {
        Some(Some(Level::Index))
    } else if str_eq(value, "chunk") {
        Some(Some(Level::Chunk))
    } else if str_eq(value, "all") {
        Some(None)
    } else {
        None
    }
}

/// The choice of permutations that `value` makes.
fn parse_backend(value: &str) -> (r: Option<Option<Backend>>)
    ensures
        r == backend_choice(value@),
{
    if str_eq(value, "hmr12") {
        Some(Some(Backend::Hmr12))
    } else if str_eq(value, "fastprp") {
        Some(Some(Backend::FastPrp))
    } else if str_eq(value, "all") {
        Some(None)
    } else {
        None
    }
}

/// Takes one flag and its value into `args`; yields nothing if that is not possible.
fn take_flag(tool: Tool, args: Args, flag: &str, value: &str) -> (r: Option<Args>)
    ensures
        match r {
            Some(next) => with_flag(tool, args@, flag@, value@) == Some(next@),
            None => with_flag(tool, args@, flag@, value@) is None,
        },
{
    let mut args = args;
    let backend_flag: bool = match tool {
        Tool::HarmonyHint => true,
        Tool::HarmonyOnline => true,
        _ => false,
    };
    if str_eq(flag, "--data-root") {
        args.data_root = value.to_owned();
        Some(args)
    } else if str_eq(flag, "--trials") {
        match try_parse_usize(value) {
            Some(n) => {
                args.trials = n;
                Some(args)
            },
            None => None,
        }
    } else if str_eq(flag, "--warmups") {
        match try_parse_usize(value) {
            Some(n) => {
                args.warmups = n;
                Some(args)
            },
            None => None,
        }
    } else if str_eq(flag, "--database") {
        args.database = Some(value.to_owned());
        Some(args)
    } else if str_eq(flag, "--level") {
        match parse_level(value) {
            Some(level) => {
                args.level = level;
                Some(args)
            },
            None => None,
        }
    } else if str_eq(flag, "--backend") && backend_flag {
        match parse_backend(value) {
            Some(backend) => {
                args.backend = backend;
                Some(args)
            },
            None => None,
        }
    } else {
        None
    }
}

/// Reads a command line, without the program's name; yields nothing where the usage has to be
/// shown instead.
pub fn parse_args(tool: Tool, argv: &Vec<String>) -> (r: Option<Args>)
    ensures
        match r {
            Some(args) => with_flags(tool, tool.defaults(), argv_view(argv@)) == Some(args@),
            None => with_flags(tool, tool.defaults(), argv_view(argv@)) is None,
        },
{
    let trials: usize = match tool {
        Tool::MerkleRound => 30,
        _ => 3,
    };
    let mut args = Args {
        data_root: "/Volumes/Bitcoin/data".to_owned(),
        trials,
        warmups: 1,
        database: None,
        level: None,
        backend: None,
    };
    let n: usize = argv.len();
    let ghost all = argv_view(argv@);
    let mut i: usize = 0;
    assert(all.skip(0) =~= all);
    assert(args@ =~= tool.defaults());
    while i < n
        invariant
            i <= n,
            n == argv@.len(),
            all == argv_view(argv@),
            with_flags(tool, tool.defaults(), all) == with_flags(tool, args@, all.skip(i as int)),
        decreases n - i,
    {
        assert(all.skip(i as int)[0] == argv@[i as int]@);
        if n - i < 2 {
            return None;
        }
        assert(all.skip(i as int)[1] == argv@[i + 1]@);
        assert(all.skip(i as int).skip(2) =~= all.skip(i + 2));
        match take_flag(tool, args, argv[i].as_str(), argv[i + 1].as_str()) {
            Some(next) => {
                args = next;
            },
            None => {
                return None;
            },
        }
        i = i + 2;
    }
    Some(args)
}

/// A flag at the end of the command line that lacks its value, or stands alone, shows the usage.
pub proof fn law_last_flag_needs_value(tool: Tool, args: ArgsView, flag: Seq<char>)
    ensures
        with_flags(tool, args, seq![flag]) is None,
{
}

proof fn lemma_flags_concat(
    tool: Tool,
    args: ArgsView,
    front: Seq<Seq<char>>,
    back: Seq<Seq<char>>,
)
    requires
        with_flags(tool, args, front) is Some,
    ensures
        with_flags(tool, args, front + back) == with_flags(
            tool,
            with_flags(tool, args, front)->Some_0,
            back,
        ),
    decreases front.len(),
{
    if front.len() == 0 {
        assert(front + back =~= back);
    } else {
        let next = with_flag(tool, args, front[0], front[1])->Some_0;
        lemma_flags_concat(tool, next, front.skip(2), back);
        assert((front + back).skip(2) =~= front.skip(2) + back);
    }
}

/// A flag at the end of a command line that is accepted overrides what stands before it.
pub proof fn law_last_flag_wins(
    tool: Tool,
    args: ArgsView,
    front: Seq<Seq<char>>,
    flag: Seq<char>,
    value: Seq<char>,
)
    requires
        with_flags(tool, args, front) is Some,
    ensures
        with_flags(tool, args, front + seq![flag, value]) == with_flag(
            tool,
            with_flags(tool, args, front)->Some_0,
            flag,
            value,
        ),
{
    let back = seq![flag, value];
    lemma_flags_concat(tool, args, front, back);
    let mid = with_flags(tool, args, front)->Some_0;
    assert(back.skip(2) =~= Seq::empty());
    match with_flag(tool, mid, flag, value) {
        Some(next) => {
            assert(with_flags(tool, next, back.skip(2)) == Some(next));
        },
        None => {},
    }
}

/// A command line whose words do not come in pairs shows the usage.
pub proof fn law_words_come_in_pairs(tool: Tool, args: ArgsView, argv: Seq<Seq<char>>)
    requires
        argv.len() % 2 == 1,
    ensures
        with_flags(tool, args, argv) is None,
    decreases argv.len(),
{
    if argv.len() > 1 {
        match with_flag(tool, args, argv[0], argv[1]) {
            Some(next) => {
                law_words_come_in_pairs(tool, next, argv.skip(2));
            },
            None => {},
        }
    }
}

/// A command line is accepted where its first pair is and the others are after it, and one without
/// words changes nothing.
pub proof fn law_first_flag(
    tool: Tool,
    args: ArgsView,
    flag: Seq<char>,
    value: Seq<char>,
    rest: Seq<Seq<char>>,
)
    ensures
        with_flags(tool, args, Seq::empty()) == Some(args),
        with_flag(tool, args, flag, value) is None ==> with_flags(
            tool,
            args,
            seq![flag, value] + rest,
        ) is None,
        with_flag(tool, args, flag, value) matches Some(next) ==> with_flags(
            tool,
            args,
            seq![flag, value] + rest,
        ) == with_flags(tool, next, rest),
{
    let argv = seq![flag, value] + rest;
    assert(argv.skip(2) =~= rest);
}

/// The flags that take any value: the value is kept as it stands, and nothing else changes.
pub proof fn law_flags_with_any_value(tool: Tool, args: ArgsView, value: Seq<char>)
    ensures
        with_flag(tool, args, "--data-root"@, value) == Some(
            ArgsView { data_root: value, ..args },
        ),
        with_flag(tool, args, "--database"@, value) == Some(
            ArgsView { database: Some(value), ..args },
        ),
{
    reveal_flags();
}

/// The flags that take a number: one that a machine word can hold is kept, and nothing else
/// changes; any other value is refused.
pub proof fn law_flags_with_numbers(tool: Tool, args: ArgsView, value: Seq<char>)
    ensures
        match decimal_value(value) {
            Some(n) => if n <= usize::MAX {
                &&& with_flag(tool, args, "--trials"@, value) == Some(
                    ArgsView { trials: n, ..args },
                )
                &&& with_flag(tool, args, "--warmups"@, value) == Some(
                    ArgsView { warmups: n, ..args },
                )
            } else {
                &&& with_flag(tool, args, "--trials"@, value) is None
                &&& with_flag(tool, args, "--warmups"@, value) is None
            },
            None => {
                &&& with_flag(tool, args, "--trials"@, value) is None
                &&& with_flag(tool, args, "--warmups"@, value) is None
            },
        },
{
    reveal_flags();
}

/// The flag that chooses levels: a level that is named is chosen, `all` takes a choice back, and
/// nothing else changes; any other value is refused.
pub proof fn law_flag_of_levels(tool: Tool, args: ArgsView, value: Seq<char>)
    ensures
        with_flag(tool, args, "--level"@, "index"@) == Some(
            ArgsView { level: Some(Level::Index), ..args },
        ),
        with_flag(tool, args, "--level"@, "chunk"@) == Some(
            ArgsView { level: Some(Level::Chunk), ..args },
        ),
        with_flag(tool, args, "--level"@, "all"@) == Some(ArgsView { level: None, ..args }),
        value != "index"@ && value != "chunk"@ && value != "all"@ ==> with_flag(
            tool,
            args,
            "--level"@,
            value,
        ) is None,
{
    reveal_flags();
    reveal_strlit("index");
    reveal_strlit("chunk");
    reveal_strlit("all");
    assert("index"@[0] == 'i');
    assert("chunk"@[0] == 'c');
    assert("all"@[0] == 'a');
}

/// The flag that chooses permutations, which the runners of the hint protocol know: a permutation
/// that is named is chosen, `all` takes a choice back, and nothing else changes; any other value is
/// refused, and so is the flag by the other runners.
pub proof fn law_flag_of_backends(tool: Tool, args: ArgsView, value: Seq<char>)
    ensures
        tool is HarmonyHint || tool is HarmonyOnline ==> {
            &&& with_flag(tool, args, "--backend"@, "hmr12"@) == Some(
                ArgsView { backend: Some(Backend::Hmr12), ..args },
            )
            &&& with_flag(tool, args, "--backend"@, "fastprp"@) == Some(
                ArgsView { backend: Some(Backend::FastPrp), ..args },
            )
            &&& with_flag(tool, args, "--backend"@, "all"@) == Some(
                ArgsView { backend: None, ..args },
            )
            &&& value != "hmr12"@ && value != "fastprp"@ && value != "all"@ ==> with_flag(
                tool,
                args,
                "--backend"@,
                value,
            ) is None
        },
        tool is DpfRound || tool is MerkleRound ==> with_flag(
            tool,
            args,
            "--backend"@,
            value,
        ) is None,
{
    reveal_flags();
    reveal_strlit("hmr12");
    reveal_strlit("fastprp");
    reveal_strlit("all");
    assert("hmr12"@[0] == 'h');
    assert("fastprp"@[0] == 'f');
    assert("all"@[0] == 'a');
}

/// No runner knows any other flag.
pub proof fn law_other_flags_are_refused(
    tool: Tool,
    args: ArgsView,
    flag: Seq<char>,
    value: Seq<char>,
)
    requires
        flag != "--data-root"@,
        flag != "--trials"@,
        flag != "--warmups"@,
        flag != "--database"@,
        flag != "--level"@,
        flag != "--backend"@,
    ensures
        with_flag(tool, args, flag, value) is None,
{
}

/// The flags differ from each other.
proof fn reveal_flags()
    ensures
        "--data-root"@.len() == 11,
        "--trials"@.len() == 8,
        "--warmups"@.len() == 9,
        "--database"@.len() == 10,
        "--level"@.len() == 7,
        "--backend"@.len() == 9,
        "--warmups"@[2] != "--backend"@[2],
{
    reveal_strlit("--data-root");
    reveal_strlit("--trials");
    reveal_strlit("--warmups");
    reveal_strlit("--database");
    reveal_strlit("--level");
    reveal_strlit("--backend");
}

/// A runner that is called without words works on everything under the data directory, with one
/// round to warm up: the Merkle round measures thirty trials, the others three.
pub proof fn law_runners_without_words(tool: Tool)
    ensures
        with_flags(tool, tool.defaults(), Seq::empty()) matches Some(args) && {
            &&& args.data_root == "/Volumes/Bitcoin/data"@
            &&& tool is MerkleRound ==> args.trials == 30
            &&& tool !is MerkleRound ==> args.trials == 3
            &&& args.warmups == 1
            &&& args.database is None && args.level is None && args.backend is None
        },
{
}

/// What contracts speak of as words and settings are all words and settings, each as it is.
pub proof fn law_words_hold_all(argv: Seq<String>, args: Args)
    ensures
        argv_view(argv).len() == argv.len(),
        forall|i: int| 0 <= i < argv.len() ==> #[trigger] argv_view(argv)[i] == argv[i]@,
        args@.data_root == args.data_root@,
        args@.trials == args.trials,
        args@.warmups == args.warmups,
        args@.database is Some <==> args.database is Some,
        args.database matches Some(name) ==> args@.database == Some(name@),
        args@.level == args.level,
        args@.backend == args.backend,
{
}

/// How a runner is called: by its name, with the flags that all runners know, a choice of levels,
/// and for the hint protocol a choice of permutations.
pub proof fn law_usage(tool: Tool)
    ensures
        ({
            let flags = " [--data-root PATH] [--trials N] [--warmups N] [--database NAME]"@;
            match tool {
                Tool::DpfRound => tool.usage_text() == "usage: dpf-round-bench"@ + flags
                    + " [--level index|chunk]"@,
                Tool::HarmonyHint => tool.usage_text() == "usage: harmony-hint-bench"@ + flags
                    + " [--level index|chunk|all]"@ + " [--backend hmr12|fastprp|all]"@,
                Tool::HarmonyOnline => tool.usage_text() == "usage: harmony-online-bench"@ + flags
                    + " [--level index|chunk|all]"@ + " [--backend hmr12|fastprp|all]"@,
                Tool::MerkleRound => tool.usage_text() == "usage: merkle-round-bench"@ + flags
                    + " [--level index|chunk|all]"@,
            }
        }),
{
    reveal_strlit(" [--data-root PATH] [--trials N] [--warmups N] [--database NAME]");
    reveal_strlit(" [--level index|chunk]");
    reveal_strlit(" [--level index|chunk|all]");
    reveal_strlit(" [--backend hmr12|fastprp|all]");
    match tool {
        Tool::DpfRound => {
            reveal_strlit("usage: dpf-round-bench");
            reveal_strlit(
                "usage: dpf-round-bench [--data-root PATH] [--trials N] [--warmups N] [--database NAME] [--level index|chunk]",
            );
        },
        Tool::HarmonyHint => {
            reveal_strlit("usage: harmony-hint-bench");
            reveal_strlit(
                "usage: harmony-hint-bench [--data-root PATH] [--trials N] [--warmups N] [--database NAME] [--level index|chunk|all] [--backend hmr12|fastprp|all]",
            );
        },
        Tool::HarmonyOnline => {
            reveal_strlit("usage: harmony-online-bench");
            reveal_strlit(
                "usage: harmony-online-bench [--data-root PATH] [--trials N] [--warmups N] [--database NAME] [--level index|chunk|all] [--backend hmr12|fastprp|all]",
            );
        },
        Tool::MerkleRound => {
            reveal_strlit("usage: merkle-round-bench");
            reveal_strlit(
                "usage: merkle-round-bench [--data-root PATH] [--trials N] [--warmups N] [--database NAME] [--level index|chunk|all]",
            );
        },
    }
}

/// The name of a level or a permutation chooses it, and no other word does.
pub proof fn law_names_choose(value: Seq<char>, level: Level, backend: Backend)
    ensures
        level_choice(value) == Some(Some(level)) <==> value == level.name(),
        backend_choice(value) == Some(Some(backend)) <==> value == backend.name(),
{
    reveal_strlit("index");
    reveal_strlit("chunk");
    reveal_strlit("all");
    reveal_strlit("hmr12");
    reveal_strlit("fastprp");
    assert("index"@[0] == 'i' && "chunk"@[0] == 'c' && "all"@[0] == 'a');
    assert("hmr12"@[0] == 'h' && "fastprp"@[0] == 'f');
}

} // verus!
