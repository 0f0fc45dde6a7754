//! The databases, and which of their tables a run looks at.
use crate::cli::{Args, Tool};
use crate::kinds::{Backend, Level};
use crate::text::str_eq;
use vstd::prelude::*;

#[allow(unused_imports)]
use crate::cli::option_view;
#[allow(unused_imports)]
use crate::kinds::sibling_name;

verus! {

/// A database: its name and kind, and the directory of its files below the data root.
#[derive(Clone, Copy, Debug)]
pub struct DatabaseSpec {
    pub name: &'static str,
    pub kind: &'static str,
    pub parent_dir: &'static str,
    pub dir: &'static str,
}

/// What a `DatabaseSpec` holds.
pub struct DatabaseView {
    pub name: Seq<char>,
    pub kind: Seq<char>,
    pub parent_dir: Seq<char>,
    pub dir: Seq<char>,
}

impl View for DatabaseSpec {
    type V = DatabaseView;

    open spec fn view(&self) -> DatabaseView {
        DatabaseView {
            name: self.name@,
            kind: self.kind@,
            parent_dir: self.parent_dir@,
            dir: self.dir@,
        }
    }
}

/// The tables of one level of one database.
#[derive(Clone, Copy, Debug)]
pub struct Artifact {
    pub database: DatabaseSpec,
    pub level: Level,
}

/// What an `Artifact` holds.
pub struct ArtifactView {
    pub database: DatabaseView,
    pub level: Level,
}

impl View for Artifact {
    type V = ArtifactView;

    open spec fn view(&self) -> ArtifactView {
        ArtifactView { database: self.database@, level: self.level }
    }
}

/// What each of `artifacts` holds.
pub open spec fn artifact_views(artifacts: Seq<Artifact>) -> Seq<ArtifactView> {
    artifacts.map_values(|a: Artifact| a@)
}

/// What each of `specs` holds.
pub open spec fn database_views(specs: Seq<DatabaseSpec>) -> Seq<DatabaseView> {
    specs.map_values(|d: DatabaseSpec| d@)
}

/// The databases: the full checkpoint, and two deltas.
pub open spec fn databases() -> Seq<DatabaseView> {
    seq![
        DatabaseView {
            name: "full_948454"@,
            kind: "full"@,
            parent_dir: "checkpoints"@,
            dir: "948454"@,
        },
        DatabaseView {
            name: "delta_940611_948454"@,
            kind: "delta"@,
            parent_dir: "deltas"@,
            dir: "940611_948454"@,
        },
        DatabaseView {
            name: "delta_940611_944000"@,
            kind: "delta"@,
            parent_dir: "deltas"@,
            dir: "940611_944000"@,
        },
    ]
}

/// The databases.
pub fn database_specs() -> (r: Vec<DatabaseSpec>)
    ensures
        database_views(r@) == databases(),
{
    let full = DatabaseSpec {
        name: "full_948454",
        kind: "full",
        parent_dir: "checkpoints",
        dir: "948454",
    };
    let delta = DatabaseSpec {
        name: "delta_940611_948454",
        kind: "delta",
        parent_dir: "deltas",
        dir: "940611_948454",
    };
    let small = DatabaseSpec {
        name: "delta_940611_944000",
        kind: "delta",
        parent_dir: "deltas",
        dir: "940611_944000",
    };
    let r = vec![full, delta, small];
    assert(database_views(r@) =~= databases());
    r
}

/// The levels that are looked at.
pub open spec fn levels_chosen(level: Option<Level>) -> Seq<Level> {
    match level {
        Some(level) => seq![level],
        None => seq![Level::Index, Level::Chunk],
    }
}

/// The levels that are looked at.
pub fn selected_levels(args: &Args) -> (r: Vec<Level>)
    ensures
        r@ == levels_chosen(args.level),
{
    match args.level {
        Some(level) => vec![level],
        None => vec![Level::Index, Level::Chunk],
    }
}

/// The permutations that are looked at.
pub open spec fn backends_chosen(backend: Option<Backend>) -> Seq<Backend> {
    match backend {
        Some(backend) => seq![backend],
        None => seq![Backend::Hmr12, Backend::FastPrp],
    }
}

/// The permutations that are looked at.
pub fn selected_backends(args: &Args) -> (r: Vec<Backend>)
    ensures
        r@ == backends_chosen(args.backend),
{
    match args.backend {
        Some(backend) => vec![backend],
        None => vec![Backend::Hmr12, Backend::FastPrp],
    }
}

/// Whether the database called `name` is looked at: all are if none or `all` was asked for.
pub open spec fn database_chosen(asked: Option<Seq<char>>, name: Seq<char>) -> bool {
    match asked {
        Some(asked) => asked == "all"@ || asked == name,
        None => true,
    }
}

/// The tables of the chosen databases among `dbs`, each at all of `levels`.
pub open spec fn tables_of(
    dbs: Seq<DatabaseView>,
    asked: Option<Seq<char>>,
    levels: Seq<Level>,
) -> Seq<ArtifactView>
    decreases dbs.len(),
{
    if dbs.len() == 0 {
        Seq::empty()
    } else {
        let before = tables_of(dbs.drop_last(), asked, levels);
        if database_chosen(asked, dbs.last().name) {
            before + levels.map_values(
                |level: Level| ArtifactView { database: dbs.last(), level },
            )
        } else {
            before
        }
    }
}

/// The tables that a run looks at, where their files exist.
pub fn candidate_artifacts(args: &Args) -> (r: Vec<Artifact>)
    ensures
        artifact_views(r@) == tables_of(
            databases(),
            option_view(args.database),
            levels_chosen(args.level),
        ),
{
    let dbs: Vec<DatabaseSpec> = database_specs();
    let levels: Vec<Level> = selected_levels(args);
    let ghost asked = option_view(args.database);
    let ghost views = databases();
    let n: usize = dbs.len();
    let mut out: Vec<Artifact> = Vec::new();
    let mut i: usize = 0;
    assert(views.take(0) =~= Seq::empty());
    assert(artifact_views(out@) =~= Seq::empty());
    while i < n
        invariant
            i <= n,
            n == dbs@.len(),
            asked == option_view(args.database),
            views == database_views(dbs@),
            artifact_views(out@) == tables_of(views.take(i as int), asked, levels@),
        decreases n - i,
    {
        let db: DatabaseSpec = dbs[i];
        let chosen: bool = match &args.database {
            Some(name) => str_eq(name.as_str(), "all") || str_eq(name.as_str(), db.name),
            None => true,
        };
        assert(views.take(i + 1).drop_last() =~= views.take(i as int));
        assert(views.take(i + 1).last() == db@);
        let ghost before = artifact_views(out@);
        if chosen {
            let m: usize = levels.len();
            let mut j: usize = 0;
            let ghost added = levels@.map_values(
                |level: Level| ArtifactView { database: db@, level },
            );
            assert(before + added.take(0) =~= before);
            while j < m
                invariant
                    j <= m,
                    m == levels@.len(),
                    added == levels@.map_values(
                        |level: Level| ArtifactView { database: db@, level },
                    ),
                    artifact_views(out@) == before + added.take(j as int),
                decreases m - j,
            {
                let ghost prev = artifact_views(out@);
                out.push(Artifact { database: db, level: levels[j] });
                assert(artifact_views(out@) =~= prev.push(added[j as int]));
                assert(added.take(j + 1) =~= added.take(j as int).push(added[j as int]));
                assert(artifact_views(out@) =~= before + added.take(j + 1));
                j = j + 1;
            }
            assert(added.take(m as int) =~= added);
        }
        i = i + 1;
    }
    assert(views.take(n as int) =~= views);
    out
}

/// The files that have to exist for a runner to look at the tables of a level.
pub open spec fn files_needed(tool: Tool, level: Level) -> Seq<Seq<char>> {
    match tool {
        Tool::MerkleRound => seq![
            "merkle_bucket_tree_tops.bin"@,
            level.table_file(),
            sibling_name(level, 0),
        ],
        _ => seq![level.table_file()],
    }
}

/// The files that have to exist for a runner to look at the tables of a level.
pub fn required_files(tool: Tool, level: Level) -> (r: Vec<String>)
    ensures
        r@.map_values(|s: String| s@) == files_needed(tool, level),
{
    let r: Vec<String> = match tool {
        Tool::MerkleRound => vec![
            "merkle_bucket_tree_tops.bin".to_owned(),
            level.data_file_name().to_owned(),
            level.sibling_file_name(0),
        ],
        _ => vec![level.file_name().to_owned()],
    };
    assert(r@.map_values(|s: String| s@) =~= files_needed(tool, level));
    r
}

/// Those of `artifacts` whose files are present.
pub open spec fn present_only(artifacts: Seq<Artifact>, present: Seq<bool>) -> Seq<Artifact>
    decreases artifacts.len(),
{
    if artifacts.len() == 0 {
        Seq::empty()
    } else {
        let before = present_only(artifacts.drop_last(), present);
        if present[artifacts.len() - 1] {
            before.push(artifacts.last())
        } else {
            before
        }
    }
}

/// Keeps those of the candidates whose files are all present.
pub fn selected_artifacts(candidates: &Vec<Artifact>, present: &Vec<bool>) -> (r: Vec<Artifact>)
    requires
        candidates@.len() == present@.len(),
    ensures
        r@ == present_only(candidates@, present@),
{
    let n: usize = candidates.len();
    let mut out: Vec<Artifact> = Vec::new();
    let mut i: usize = 0;
    while i < n
        invariant
            i <= n,
            n == candidates@.len(),
            n == present@.len(),
            out@ == present_only(candidates@.take(i as int), present@),
        decreases n - i,
    {
        assert(candidates@.take(i + 1).drop_last() =~= candidates@.take(i as int));
        if present[i] {
            out.push(candidates[i]);
        }
        i = i + 1;
    }
    assert(candidates@.take(n as int) =~= candidates@);
    out
}

/// Which sibling table to load when `loaded` of them are loaded, and the file of the next one
/// exists or not.
pub open spec fn sibling_after(loaded: usize, exists: bool) -> Option<usize> {
    if exists {
        Some(loaded)
    } else {
        None
    }
}

/// Which sibling table to load when `loaded` of them are loaded, and the file of the next one
/// exists or not.
pub fn next_sibling(loaded: usize, exists: bool) -> (r: Option<usize>)
    ensures
        r == sibling_after(loaded, exists),
{
    if exists {
        Some(loaded)
    } else {
        None
    }
}

/// How many sibling tables are loaded in the end, given that `loaded` of them are, and for every
/// level whether its file is present.
pub open spec fn siblings_loaded(present: Seq<bool>, loaded: usize) -> usize
    decreases present.len() - loaded,
{
    if loaded < present.len() <= usize::MAX {
        match sibling_after(loaded, present[loaded as int]) {
            Some(_) => siblings_loaded(present, (loaded + 1) as usize),
            None => loaded,
        }
    } else {
        loaded
    }
}

/// Loading ends at the first gap: every file before it is loaded, and none behind it.
pub proof fn law_siblings_end_at_first_gap(present: Seq<bool>)
    requires
        present.len() <= usize::MAX,
    ensures
        siblings_loaded(present, 0) <= present.len(),
        forall|i: int| 0 <= i < siblings_loaded(present, 0) ==> #[trigger] present[i],
        siblings_loaded(present, 0) < present.len() ==> !present[siblings_loaded(
            present,
            0,
        ) as int],
{
    lemma_siblings_loaded(present, 0);
}

proof fn lemma_siblings_loaded(present: Seq<bool>, loaded: usize)
    requires
        loaded <= present.len() <= usize::MAX,
    ensures
        loaded <= siblings_loaded(present, loaded) <= present.len(),
        forall|i: int| loaded <= i < siblings_loaded(present, loaded) ==> #[trigger] present[i],
        siblings_loaded(present, loaded) < present.len() ==> !present[siblings_loaded(
            present,
            loaded,
        ) as int],
    decreases present.len() - loaded,
{
    if loaded < present.len() && present[loaded as int] {
        lemma_siblings_loaded(present, (loaded + 1) as usize);
    }
}

/// What contracts speak of as artifacts and databases are all of them, each as it is.
pub proof fn law_catalog_views_hold_all(artifacts: Seq<Artifact>, specs: Seq<DatabaseSpec>)
    ensures
        artifact_views(artifacts).len() == artifacts.len(),
        forall|i: int|
            0 <= i < artifacts.len() ==> {
                let v = #[trigger] artifact_views(artifacts)[i];
                v.level == artifacts[i].level && v.database.name == artifacts[i].database.name@
                    && v.database.kind == artifacts[i].database.kind@ && v.database.parent_dir
                    == artifacts[i].database.parent_dir@ && v.database.dir
                    == artifacts[i].database.dir@
            },
        database_views(specs).len() == specs.len(),
        forall|i: int| 0 <= i < specs.len() ==> #[trigger] database_views(specs)[i] == specs[i]@,
{
}

/// The tables that a run looks at: a database that is asked for by its name, or with `all`, or
/// where none is asked for, comes with all levels in their order, behind those before it; any other
/// does not come.
pub proof fn law_tables_of_databases(
    dbs: Seq<DatabaseView>,
    db: DatabaseView,
    asked: Option<Seq<char>>,
    levels: Seq<Level>,
)
    ensures
        tables_of(Seq::empty(), asked, levels) == Seq::<ArtifactView>::empty(),
        asked is None || asked == Some("all"@) || asked == Some(db.name) ==> tables_of(
            dbs.push(db),
            asked,
            levels,
        ) == tables_of(dbs, asked, levels) + Seq::new(
            levels.len(),
            |i: int| ArtifactView { database: db, level: levels[i] },
        ),
        !(asked is None || asked == Some("all"@) || asked == Some(db.name)) ==> tables_of(
            dbs.push(db),
            asked,
            levels,
        ) == tables_of(dbs, asked, levels),
{
    assert(dbs.push(db).drop_last() =~= dbs);
    assert(levels.map_values(|level: Level| ArtifactView { database: db, level }) =~= Seq::new(
        levels.len(),
        |i: int| ArtifactView { database: db, level: levels[i] },
    ));
}

/// The levels and permutations that a run looks at: the one that was asked for, or both.
pub proof fn law_choices(level: Option<Level>, backend: Option<Backend>)
    ensures
        level matches Some(l) ==> levels_chosen(level) == seq![l],
        level is None ==> levels_chosen(level) == seq![Level::Index, Level::Chunk],
        backend matches Some(b) ==> backends_chosen(backend) == seq![b],
        backend is None ==> backends_chosen(backend) == seq![Backend::Hmr12, Backend::FastPrp],
{
}

/// The files that have to exist: that of the tables of the level, and for the Merkle round also the
/// tree tops and the lowest sibling table.
pub proof fn law_files_needed(tool: Tool, level: Level)
    ensures
        tool is MerkleRound ==> files_needed(tool, level) == seq![
            "merkle_bucket_tree_tops.bin"@,
            level.table_file(),
            sibling_name(level, 0),
        ],
        !(tool is MerkleRound) ==> files_needed(tool, level) == seq![level.table_file()],
{
}

/// Of the candidates those whose files are present are kept, all of them and in their order: `kept`
/// holds their numbers.
pub proof fn law_present_artifacts_are_kept(artifacts: Seq<Artifact>, present: Seq<bool>) -> (kept:
    Seq<int>)
    ensures
        kept.len() == present_only(artifacts, present).len(),
        forall|j: int|
            0 <= j < kept.len() ==> 0 <= #[trigger] kept[j] < artifacts.len() && present[kept[j]]
                && present_only(artifacts, present)[j] == artifacts[kept[j]],
        forall|i: int, j: int| 0 <= i < j < kept.len() ==> #[trigger] kept[i] < #[trigger] kept[j],
        forall|i: int|
            0 <= i < artifacts.len() && #[trigger] present[i] ==> exists|j: int|
                0 <= j < kept.len() && #[trigger] kept[j] == i,
    decreases artifacts.len(),
{
    if artifacts.len() == 0 {
        Seq::empty()
    } else {
        let n = artifacts.len() - 1;
        let before = law_present_artifacts_are_kept(artifacts.drop_last(), present);
        if present[n] {
            let kept = before.push(n);
            assert forall|i: int| 0 <= i < artifacts.len() && #[trigger] present[i] implies exists|
                j: int,
            |
                0 <= j < kept.len() && #[trigger] kept[j] == i by {
                if i < n {
                    let j = choose|j: int| 0 <= j < before.len() && #[trigger] before[j] == i;
                    assert(kept[j] == i);
                } else {
                    assert(kept[before.len() as int] == i);
                }
            }
            kept
        } else {
            before
        }
    }
}

/// Where the file of the next sibling table exists, that table is loaded: the first has number 0,
/// and each the number of those before it.
pub proof fn law_next_sibling(loaded: usize)
    ensures
        sibling_after(loaded, true) == Some(loaded),
        sibling_after(loaded, false) is None,
{
}

/// Every database is named by its kind and its directory, and lies where its kind does; the
/// deltas start at one height, and the longer of them ends at that of the checkpoint.
pub proof fn law_databases(i: int)
    requires
        0 <= i < databases().len(),
    ensures
        databases().len() == 3,
        databases()[i].name == databases()[i].kind + "_"@ + databases()[i].dir,
        i == 0 ==> databases()[i].kind == "full"@ && databases()[i].parent_dir == "checkpoints"@,
        i > 0 ==> databases()[i].kind == "delta"@ && databases()[i].parent_dir == "deltas"@,
        databases()[0].dir == "948454"@,
        databases()[1].dir == "940611_"@ + databases()[0].dir,
        databases()[2].dir == "940611_"@ + "944000"@,
{
    reveal_strlit("_");
    reveal_strlit("full");
    reveal_strlit("delta");
    reveal_strlit("948454");
    reveal_strlit("944000");
    reveal_strlit("940611_");
    reveal_strlit("940611_948454");
    reveal_strlit("940611_944000");
    reveal_strlit("full_948454");
    reveal_strlit("delta_940611_948454");
    reveal_strlit("delta_940611_944000");
    assert(databases()[0].name =~= "full"@ + "_"@ + "948454"@);
    assert(databases()[1].name =~= "delta"@ + "_"@ + "940611_948454"@);
    assert(databases()[2].name =~= "delta"@ + "_"@ + "940611_944000"@);
}

} // verus!
