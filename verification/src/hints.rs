//! The offline phase of the hint protocol: the parameters and the hints of each group.
use crate::bytes::checksum_bytes;
use crate::kinds::{Backend, BackendIds, Level, LevelParams};
use crate::layout::{entry_slice, table_slice};
use crate::parallel::par_map;
use crate::timing::{elapsed_time, Mark, Phase};
use vstd::prelude::*;

#[allow(unused_imports)]
use crate::bytes::{checksum, lemma_xor_all_push, xor_all, xor_seq, zeros};
#[allow(unused_imports)]
use crate::layout::{entry_at, file_size, lemma_table_in_file, table_at, TableLayout};
#[allow(unused_imports)]
use crate::select::{lemma_select_push, select_xor};
#[allow(unused_imports)]
use crate::timing::{clock_ready, measured_by};

verus! {

/// The parameters of the hint protocol for one level.
#[derive(Clone, Copy, Debug, PartialEq, Eq, Structural)]
pub struct HintParams {
    /// Number of groups.
    pub k: usize,
    /// Number of entries in a group's table.
    pub bins_per_table: usize,
    /// Bytes of one entry.
    pub entry_size: usize,
    /// Number of entries after padding.
    pub padded_n: usize,
    /// Cells per segment.
    pub t: usize,
    /// Number of segments.
    pub m: usize,
    /// Number of cells.
    pub domain: usize,
    /// Rounds of the permutation.
    pub rounds: usize,
    /// Number of queries that one set of hints serves.
    pub max_queries: usize,
    /// Bytes before the first table.
    pub header_size: usize,
}

impl HintParams {
    /// The parameters with the number of cells that they imply: twice the padded entries.
    pub fn new(
        k: usize,
        bins_per_table: usize,
        entry_size: usize,
        padded_n: usize,
        t: usize,
        m: usize,
        rounds: usize,
        max_queries: usize,
        header_size: usize,
    ) -> (r: HintParams)
        requires
            2 * padded_n <= usize::MAX,
        ensures
            r == (HintParams {
                k,
                bins_per_table,
                entry_size,
                padded_n,
                t,
                m,
                domain: (2 * padded_n) as usize,
                rounds,
                max_queries,
                header_size,
            }),
    {
        HintParams {
            k,
            bins_per_table,
            entry_size,
            padded_n,
            t,
            m,
            domain: 2 * padded_n,
            rounds,
            max_queries,
            header_size,
        }
    }

    /// How many entries of the table take part: all of them, unless there are more than cells
    /// were made for.
    pub open spec fn entries(self) -> nat {
        if self.bins_per_table < self.padded_n {
            self.bins_per_table as nat
        } else {
            self.padded_n as nat
        }
    }

    /// The bytes of a group's table.
    pub open spec fn table_bytes(self) -> int {
        self.bins_per_table * self.entry_size
    }

    /// The layout of a file of `file_bytes` bytes that these parameters describe.
    pub open spec fn layout(self, file_bytes: usize) -> TableLayout {
        TableLayout {
            header_size: self.header_size,
            k: self.k,
            bins_per_table: self.bins_per_table,
            result_size: self.entry_size,
            table_byte_size: self.table_bytes() as usize,
            file_bytes,
        }
    }

    /// The table of `group`.
    pub open spec fn table(self, data: Seq<u8>, group: int) -> Seq<u8> {
        table_at(data, self.header_size, self.table_bytes() as usize, group)
    }

    /// The hints of a group and every entry that takes part lie within bounds: there is a cell for
    /// each padded entry, each cell belongs to one of the segments, and the table holds the
    /// entries.
    pub open spec fn cells_fit(self, cell_of: Seq<usize>, table: Seq<u8>) -> bool {
        &&& self.padded_n > 0 ==> self.t > 0
        &&& self.m * self.entry_size <= usize::MAX
        &&& self.padded_n <= cell_of.len()
        &&& forall|i: int|
            0 <= i < self.entries() ==> #[trigger] self.segment_of(cell_of, i) * self.entry_size
                + self.entry_size <= self.m * self.entry_size
        &&& forall|i: int|
            0 <= i < self.entries() ==> (#[trigger] (i * self.entry_size)) + self.entry_size
                <= table.len()
    }

    /// The segment of the cell of entry `i`.
    pub open spec fn segment_of(self, cell_of: Seq<usize>, i: int) -> int {
        cell_of[i] as int / self.t as int
    }

    /// The predicate that picks the entries whose cells lie in `segment`.
    pub open spec fn in_segment(self, cell_of: Seq<usize>, segment: int) -> spec_fn(int) -> bool {
        |i: int| self.segment_of(cell_of, i) == segment
    }

    /// The entries that take part.
    pub open spec fn table_entries(self, table: Seq<u8>) -> Seq<Seq<u8>> {
        Seq::new(self.entries(), |i: int| entry_at(table, self.entry_size, i))
    }

    /// The hint of `segment`: the exclusive or of the entries whose cells lie in it.
    pub open spec fn hint_of(self, cell_of: Seq<usize>, table: Seq<u8>, segment: int) -> Seq<u8> {
        select_xor(
            self.table_entries(table),
            self.in_segment(cell_of, segment),
            self.entry_size as nat,
        )
    }

    /// `hints` holds the hint of each segment, one after the other.
    pub open spec fn holds_hints(
        self,
        hints: Seq<u8>,
        cell_of: Seq<usize>,
        table: Seq<u8>,
    ) -> bool {
        &&& hints.len() == self.m * self.entry_size
        &&& forall|s: int|
            0 <= s < self.m ==> #[trigger] entry_at(hints, self.entry_size, s) == self.hint_of(
                cell_of,
                table,
                s,
            )
    }
}

/// Combines `src` by exclusive or into the bytes of `dst` from `start` on.
fn xor_into_range(dst: &mut Vec<u8>, start: usize, src: &[u8])
    requires
        start + src@.len() <= old(dst)@.len(),
    ensures
        final(dst)@ == Seq::new(
            old(dst)@.len(),
            |i: int|
                if start <= i < start + src@.len() {
                    old(dst)@[i] ^ src@[i - start]
                } else {
                    old(dst)@[i]
                },
        ),
{
    let n: usize = src.len();
    let len: usize = dst.len();
    let mut i: usize = 0;
    while i < n
        invariant
            i <= n,
            n == src@.len(),
            len == dst@.len(),
            len == old(dst)@.len(),
            start + n <= len,
            forall|j: int|
                0 <= j < len ==> dst@[j] == if start <= j < start + i {
                    old(dst)@[j] ^ src@[j - start]
                } else {
                    old(dst)@[j]
                },
        decreases n - i,
    {
        let b: u8 = dst[start + i] ^ src[i];
        dst.set(start + i, b);
        i = i + 1;
    }
    assert(dst@ =~= Seq::new(
        old(dst)@.len(),
        |i: int|
            if start <= i < start + src@.len() {
                old(dst)@[i] ^ src@[i - start]
            } else {
                old(dst)@[i]
            },
    ));
}

proof fn lemma_segments_apart(s: int, seg: int, m: int, e: int)
    requires
        0 <= s < m,
        0 <= seg,
        0 <= e,
        s != seg,
    ensures
        0 <= s * e,
        s * e + e <= m * e,
        s * e + e <= seg * e || seg * e + e <= s * e,
{
    assert(0 <= s * e && s * e + e <= m * e) by (nonlinear_arith)
        requires
            0 <= s < m,
            0 <= e,
    ;
    if s < seg {
        assert(s * e + e <= seg * e) by (nonlinear_arith)
            requires
                s < seg,
                0 <= e,
        ;
    } else {
        assert(seg * e + e <= s * e) by (nonlinear_arith)
            requires
                seg < s,
                0 <= e,
        ;
    }
}

/// The hints of a group, given the cell of each entry, and their checksum.
#[verifier::rlimit(40)]
pub fn hints_from_cells(cell_of: &Vec<usize>, table: &[u8], hp: &HintParams) -> (r: (Vec<u8>, u64))
    requires
        hp.cells_fit(cell_of@, table@),
    ensures
        hp.holds_hints(r.0@, cell_of@, table@),
        r.1 == checksum(r.0@),
{
    let e: usize = hp.entry_size;
    let mut hints: Vec<u8> = vec![0u8; hp.m * e];
    let ghost rows = hp.table_entries(table@);
    assert forall|s: int| 0 <= s < hp.m implies #[trigger] entry_at(hints@, e, s) == select_xor(
        rows.take(0),
        hp.in_segment(cell_of@, s),
        e as nat,
    ) by {
        lemma_segments_apart(s, s + 1, hp.m as int, e as int);
        assert(rows.take(0).len() == 0);
        assert(entry_at(hints@, e, s) =~= zeros(e as nat));
    }
    let mut k: usize = 0;
    while k < hp.padded_n
        invariant
            k <= hp.padded_n,
            e == hp.entry_size,
            hp.cells_fit(cell_of@, table@),
            rows == hp.table_entries(table@),
            hints@.len() == hp.m * e,
            forall|s: int|
                0 <= s < hp.m ==> #[trigger] entry_at(hints@, e, s) == select_xor(
                    rows.take(if k < rows.len() { k as int } else { rows.len() as int }),
                    hp.in_segment(cell_of@, s),
                    e as nat,
                ),
        decreases hp.padded_n - k,
    {
        let segment: usize = cell_of[k] / hp.t;
        if k < hp.bins_per_table {
            assert(segment == hp.segment_of(cell_of@, k as int));
            assert((k as int * hp.entry_size) + hp.entry_size <= table@.len());
            let entry = entry_slice(table, e, k);
            let ghost before = hints@;
            assert(0 <= segment * e) by (nonlinear_arith);
            xor_into_range(&mut hints, segment * e, entry);
            proof {
                assert(rows.take(k + 1) =~= rows.take(k as int).push(rows[k as int]));
                assert forall|s: int| 0 <= s < hp.m implies #[trigger] entry_at(hints@, e, s)
                    == select_xor(rows.take(k + 1), hp.in_segment(cell_of@, s), e as nat) by {
                    let pick = hp.in_segment(cell_of@, s);
                    lemma_select_push(rows.take(k as int), rows[k as int], pick, e as nat);
                    assert(entry_at(before, e, s) == select_xor(
                        rows.take(k as int),
                        pick,
                        e as nat,
                    ));
                    if s == segment {
                        lemma_segments_apart(s, s + 1, hp.m as int, e as int);
                        assert(entry_at(hints@, e, s) =~= xor_seq(
                            entry_at(before, e, s),
                            rows[k as int],
                        ));
                    } else {
                        lemma_segments_apart(s, segment as int, hp.m as int, e as int);
                        assert(entry_at(hints@, e, s) =~= entry_at(before, e, s));
                    }
                }
            }
        }
        k = k + 1;
    }
    assert(rows.take(rows.len() as int) =~= rows);
    let sum = checksum_bytes(hints.as_slice());
    (hints, sum)
}

/// Whether `cell_of` can be the cells that the permutation `backend` gives the entries of a group:
/// `derive` makes the group's key from `prp_key` and the group's number, and `fast` or `hoang`
/// lays out the cells under that key.
pub open spec fn cells_made<
    D,
    G: Fn(&[u8; 16], u32) -> D,
    F: Fn(&D, usize) -> Vec<usize>,
    H: Fn(usize, usize, &D) -> Vec<usize>,
>(
    backend: Backend,
    prp_key: [u8; 16],
    protocol_group_id: u32,
    hp: HintParams,
    derive: &G,
    fast: &F,
    hoang: &H,
    cell_of: Vec<usize>,
) -> bool {
    exists|key: D| #[trigger]
        call_ensures(*derive, (&prp_key, protocol_group_id), key) && (match backend {
            Backend::FastPrp => call_ensures(*fast, (&key, hp.domain), cell_of),
            Backend::Hmr12 => call_ensures(*hoang, (hp.domain, hp.rounds, &key), cell_of),
        })
}

/// `hints` are hints that the permutation `backend` gives for `table`, as the table of the group
/// with the number `protocol_group_id`.
pub open spec fn table_hinted<
    D,
    G: Fn(&[u8; 16], u32) -> D,
    F: Fn(&D, usize) -> Vec<usize>,
    H: Fn(usize, usize, &D) -> Vec<usize>,
>(
    backend: Backend,
    prp_key: [u8; 16],
    protocol_group_id: u32,
    table: Seq<u8>,
    hp: HintParams,
    derive: &G,
    fast: &F,
    hoang: &H,
    hints: Seq<u8>,
) -> bool {
    exists|cell_of: Vec<usize>| #[trigger]
        cells_made(backend, prp_key, protocol_group_id, hp, derive, fast, hoang, cell_of)
            && hp.holds_hints(hints, cell_of@, table)
}

/// The hints of one group and their checksum.
pub fn generate_hints_for_group<
    D,
    G: Fn(&[u8; 16], u32) -> D,
    F: Fn(&D, usize) -> Vec<usize>,
    H: Fn(usize, usize, &D) -> Vec<usize>,
>(
    backend: Backend,
    prp_key: &[u8; 16],
    protocol_group_id: u32,
    table: &[u8],
    hp: &HintParams,
    derive: &G,
    fast: &F,
    hoang: &H,
) -> (r: (Vec<u8>, u64))
    requires
        call_requires(*derive, (prp_key, protocol_group_id)),
        forall|key: D| #[trigger]
            call_ensures(*derive, (prp_key, protocol_group_id), key) ==> (match backend {
                Backend::FastPrp => call_requires(*fast, (&key, hp.domain)),
                Backend::Hmr12 => call_requires(*hoang, (hp.domain, hp.rounds, &key)),
            }),
        forall|cell_of: Vec<usize>| #[trigger]
            cells_made(
                backend,
                *prp_key,
                protocol_group_id,
                *hp,
                derive,
                fast,
                hoang,
                cell_of,
            ) ==> hp.cells_fit(cell_of@, table@),
    ensures
        table_hinted(
            backend,
            *prp_key,
            protocol_group_id,
            table@,
            *hp,
            derive,
            fast,
            hoang,
            r.0@,
        ),
        r.1 == checksum(r.0@),
{
    let key = derive(prp_key, protocol_group_id);
    let cell_of = match backend {
        Backend::FastPrp => fast(&key, hp.domain),
        Backend::Hmr12 => hoang(hp.domain, hp.rounds, &key),
    };
    assert(cells_made(
        backend,
        *prp_key,
        protocol_group_id,
        *hp,
        derive,
        fast,
        hoang,
        cell_of,
    ));
    hints_from_cells(&cell_of, table, hp)
}

/// The protocol's number of `group` of a level.
pub open spec fn group_number(level: Level, all: LevelParams, group: usize) -> int {
    (level.group_offset(all) as u32) + (group as u32)
}

/// The protocol's number of `group` of a level.
pub fn protocol_group_id(level: Level, all: &LevelParams, group: usize) -> (r: u32)
    requires
        group_number(level, *all, group) <= u32::MAX,
    ensures
        r == group_number(level, *all, group),
{
    level.k_offset(all) + group as u32
}

/// The hints of `group` of a file of tables can be made.
pub open spec fn group_ready<
    D,
    G: Fn(&[u8; 16], u32) -> D,
    F: Fn(&D, usize) -> Vec<usize>,
    H: Fn(usize, usize, &D) -> Vec<usize>,
>(
    level: Level,
    all: LevelParams,
    backend: Backend,
    prp_key: [u8; 16],
    data: Seq<u8>,
    hp: HintParams,
    group: usize,
    derive: &G,
    fast: &F,
    hoang: &H,
) -> bool {
    let id = group_number(level, all, group) as u32;
    &&& group_number(level, all, group) <= u32::MAX
    &&& call_requires(*derive, (&prp_key, id))
    &&& forall|key: D| #[trigger]
        call_ensures(*derive, (&prp_key, id), key) ==> (match backend {
            Backend::FastPrp => call_requires(*fast, (&key, hp.domain)),
            Backend::Hmr12 => call_requires(*hoang, (hp.domain, hp.rounds, &key)),
        })
    &&& forall|cell_of: Vec<usize>| #[trigger]
        cells_made(backend, prp_key, id, hp, derive, fast, hoang, cell_of) ==> hp.cells_fit(
            cell_of@,
            hp.table(data, group as int),
        )
}

/// `hints` are the hints of `group` of a file of tables.
pub open spec fn group_hinted<
    D,
    G: Fn(&[u8; 16], u32) -> D,
    F: Fn(&D, usize) -> Vec<usize>,
    H: Fn(usize, usize, &D) -> Vec<usize>,
>(
    level: Level,
    all: LevelParams,
    backend: Backend,
    prp_key: [u8; 16],
    data: Seq<u8>,
    hp: HintParams,
    group: usize,
    derive: &G,
    fast: &F,
    hoang: &H,
    hints: Seq<u8>,
) -> bool {
    table_hinted(
        backend,
        prp_key,
        group_number(level, all, group) as u32,
        hp.table(data, group as int),
        hp,
        derive,
        fast,
        hoang,
        hints,
    )
}

/// `hints` holds the hints of each group of a file of tables.
pub open spec fn all_hinted<
    D,
    G: Fn(&[u8; 16], u32) -> D,
    F: Fn(&D, usize) -> Vec<usize>,
    H: Fn(usize, usize, &D) -> Vec<usize>,
>(
    level: Level,
    all: LevelParams,
    backend: Backend,
    prp_key: [u8; 16],
    data: Seq<u8>,
    hp: HintParams,
    derive: &G,
    fast: &F,
    hoang: &H,
    hints: Seq<Vec<u8>>,
) -> bool {
    &&& hints.len() == hp.k
    &&& forall|g: usize|
        g < hp.k ==> group_hinted(
            level,
            all,
            backend,
            prp_key,
            data,
            hp,
            g,
            derive,
            fast,
            hoang,
            (#[trigger] hints[g as int])@,
        )
}

/// The file holds all tables.
pub open spec fn tables_fit(hp: HintParams, data: Seq<u8>) -> bool {
    &&& hp.table_bytes() <= usize::MAX
    &&& file_size(hp.header_size, hp.k, hp.bins_per_table, hp.entry_size) <= data.len()
}

/// The hints of one group of a file of tables, and their checksum.
pub fn hints_of_group<
    D,
    G: Fn(&[u8; 16], u32) -> D,
    F: Fn(&D, usize) -> Vec<usize>,
    H: Fn(usize, usize, &D) -> Vec<usize>,
>(
    level: Level,
    all: &LevelParams,
    backend: Backend,
    prp_key: &[u8; 16],
    data: &[u8],
    hp: &HintParams,
    group: usize,
    derive: &G,
    fast: &F,
    hoang: &H,
) -> (r: (Vec<u8>, u64))
    requires
        tables_fit(*hp, data@),
        group < hp.k,
        group_ready(level, *all, backend, *prp_key, data@, *hp, group, derive, fast, hoang),
    ensures
        group_hinted(
            level,
            *all,
            backend,
            *prp_key,
            data@,
            *hp,
            group,
            derive,
            fast,
            hoang,
            r.0@,
        ),
        r.0@.len() == hp.m * hp.entry_size,
        r.1 == checksum(r.0@),
{
    let file_bytes: usize = data.len();
    proof {
        lemma_table_in_file(hp.layout(file_bytes), group as int);
    }
    let table_bytes: usize = hp.bins_per_table * hp.entry_size;
    let table = table_slice(data, hp.header_size, table_bytes, group);
    let id = protocol_group_id(level, all, group);
    generate_hints_for_group(backend, prp_key, id, table, hp, derive, fast, hoang)
}

/// The hints of all groups, which are made in parallel, and their checksums.
fn hints_of_groups<
    D,
    G: Fn(&[u8; 16], u32) -> D + Sync,
    F: Fn(&D, usize) -> Vec<usize> + Sync,
    H: Fn(usize, usize, &D) -> Vec<usize> + Sync,
>(
    level: Level,
    all: &LevelParams,
    backend: Backend,
    prp_key: &[u8; 16],
    data: &[u8],
    hp: &HintParams,
    derive: &G,
    fast: &F,
    hoang: &H,
) -> (r: Vec<(Vec<u8>, u64)>)
    requires
        tables_fit(*hp, data@),
        forall|g: usize|
            g < hp.k ==> #[trigger] group_ready(
                level,
                *all,
                backend,
                *prp_key,
                data@,
                *hp,
                g,
                derive,
                fast,
                hoang,
            ),
    ensures
        r@.len() == hp.k,
        forall|g: usize|
            g < hp.k ==> {
                let made = #[trigger] r@[g as int];
                &&& group_hinted(
                    level,
                    *all,
                    backend,
                    *prp_key,
                    data@,
                    *hp,
                    g,
                    derive,
                    fast,
                    hoang,
                    made.0@,
                )
                &&& made.0@.len() == hp.m * hp.entry_size
                &&& made.1 == checksum(made.0@)
            },
{
    let work = |group: usize| -> (made: (Vec<u8>, u64))
        requires
            tables_fit(*hp, data@),
            group < hp.k,
            group_ready(
                level,
                *all,
                backend,
                *prp_key,
                data@,
                *hp,
                group,
                derive,
                fast,
                hoang,
            ),
        ensures
            group_hinted(
                level,
                *all,
                backend,
                *prp_key,
                data@,
                *hp,
                group,
                derive,
                fast,
                hoang,
                made.0@,
            ),
            made.0@.len() == hp.m * hp.entry_size,
            made.1 == checksum(made.0@),
        {
            hints_of_group(
                level,
                all,
                backend,
                prp_key,
                data,
                hp,
                group,
                derive,
                fast,
                hoang,
            )
        };
    let r: Vec<(Vec<u8>, u64)> = par_map(hp.k, work);
    assert forall|g: usize| g < hp.k implies {
        let made = #[trigger] r@[g as int];
        &&& group_hinted(
            level,
            *all,
            backend,
            *prp_key,
            data@,
            *hp,
            g,
            derive,
            fast,
            hoang,
            made.0@,
        )
        &&& made.0@.len() == hp.m * hp.entry_size
        &&& made.1 == checksum(made.0@)
    } by {
        assert(call_ensures(work, (g,), r@[g as int]));
    }
    r
}

/// The hints of all groups.
pub struct HintBundle {
    pub hints: Vec<Vec<u8>>,
    pub generation: u128,
    pub checksum: u64,
}

/// The checksum of each of `rows`.
pub open spec fn checksums_of(rows: Seq<Vec<u8>>) -> Seq<u64> {
    rows.map_values(|r: Vec<u8>| checksum(r@))
}

/// Makes the hints of all groups. `clock` tells the time.
pub fn generate_hint_bundle<
    D,
    G: Fn(&[u8; 16], u32) -> D + Sync,
    F: Fn(&D, usize) -> Vec<usize> + Sync,
    H: Fn(usize, usize, &D) -> Vec<usize> + Sync,
    T: Fn(Mark) -> u128,
>(
    level: Level,
    all: &LevelParams,
    backend: Backend,
    prp_key: &[u8; 16],
    data: &[u8],
    hp: &HintParams,
    derive: &G,
    fast: &F,
    hoang: &H,
    clock: T,
) -> (r: HintBundle)
    requires
        tables_fit(*hp, data@),
        forall|g: usize|
            g < hp.k ==> #[trigger] group_ready(
                level,
                *all,
                backend,
                *prp_key,
                data@,
                *hp,
                g,
                derive,
                fast,
                hoang,
            ),
        clock_ready(clock),
    ensures
        all_hinted(
            level,
            *all,
            backend,
            *prp_key,
            data@,
            *hp,
            derive,
            fast,
            hoang,
            r.hints@,
        ),
        r.checksum == xor_all(checksums_of(r.hints@)),
        measured_by(clock, Phase::Hints, r.generation),
{
    let started: u128 = clock(Mark::Start(Phase::Hints));
    let groups = hints_of_groups(level, all, backend, prp_key, data, hp, derive, fast, hoang);
    let ended: u128 = clock(Mark::End(Phase::Hints));
    assert(call_ensures(clock, (Mark::Start(Phase::Hints),), started));
    assert(call_ensures(clock, (Mark::End(Phase::Hints),), ended));
    let ghost made = groups@;
    let mut hints: Vec<Vec<u8>> = Vec::new();
    let mut combined: u64 = 0;
    assert(checksums_of(hints@) =~= Seq::empty());
    for g in it: groups
        invariant
            it.seq() == made,
            forall|i: usize|
                i < made.len() ==> (#[trigger] made[i as int]).1 == checksum(made[i as int].0@),
            hints@ =~= made.take(it.index()).map_values(|g: (Vec<u8>, u64)| g.0),
            made.len() <= usize::MAX,
            combined == xor_all(checksums_of(hints@)),
    {
        let ghost before = hints@;
        proof {
            let i = it.index() as usize;
            assert(made[i as int].1 == checksum(made[i as int].0@));
            lemma_xor_all_push(checksums_of(before), g.1);
        }
        combined = combined ^ g.1;
        hints.push(g.0);
        assert(checksums_of(hints@) =~= checksums_of(before).push(g.1));
    }
    assert(made.take(made.len() as int) =~= made);
    HintBundle { hints, generation: elapsed_time(started, ended), checksum: combined }
}

/// The number of bytes of `rows` together.
pub open spec fn total_len(rows: Seq<Vec<u8>>) -> nat
    decreases rows.len(),
{
    if rows.len() == 0 {
        0
    } else {
        total_len(rows.drop_last()) + rows.last()@.len()
    }
}

pub(crate) proof fn lemma_total_len_prefix(rows: Seq<Vec<u8>>, i: int)
    requires
        0 <= i <= rows.len(),
    ensures
        total_len(rows.take(i)) <= total_len(rows),
    decreases rows.len() - i,
{
    if i == rows.len() {
        assert(rows.take(i) =~= rows);
    } else {
        lemma_total_len_prefix(rows, i + 1);
        assert(rows.take(i + 1).drop_last() =~= rows.take(i));
    }
}

/// The number of bytes of `rows` together.
pub fn total_bytes(rows: &Vec<Vec<u8>>) -> (r: usize)
    requires
        total_len(rows@) <= usize::MAX,
    ensures
        r == total_len(rows@),
{
    let n: usize = rows.len();
    let mut total: usize = 0;
    let mut i: usize = 0;
    while i < n
        invariant
            i <= n,
            n == rows@.len(),
            total_len(rows@) <= usize::MAX,
            total == total_len(rows@.take(i as int)),
        decreases n - i,
    {
        proof {
            lemma_total_len_prefix(rows@, i + 1);
            assert(rows@.take(i + 1).drop_last() =~= rows@.take(i as int));
        }
        total = total + rows[i].len();
        i = i + 1;
    }
    assert(rows@.take(n as int) =~= rows@);
    total
}

/// The sum of `sizes`.
pub open spec fn total_size(sizes: Seq<usize>) -> nat
    decreases sizes.len(),
{
    if sizes.len() == 0 {
        0
    } else {
        total_size(sizes.drop_last()) + sizes.last() as nat
    }
}

proof fn lemma_total_size_prefix(sizes: Seq<usize>, i: int)
    requires
        0 <= i <= sizes.len(),
    ensures
        total_size(sizes.take(i)) <= total_size(sizes),
    decreases sizes.len() - i,
{
    if i == sizes.len() {
        assert(sizes.take(i) =~= sizes);
    } else {
        lemma_total_size_prefix(sizes, i + 1);
        assert(sizes.take(i + 1).drop_last() =~= sizes.take(i));
    }
}

/// The size of the hints of all groups, and their checksum.
#[derive(Clone, Copy, Debug, PartialEq, Eq, Structural)]
pub struct HintRun {
    pub wall: u128,
    pub hints_bytes: usize,
    pub checksum: u64,
}

/// Adds up the sizes of the hints of all groups, and combines their checksums; `wall` is the time
/// that it took to make them.
fn collect_hint_sizes(groups: &Vec<(usize, u64)>, wall: u128) -> (r: HintRun)
    requires
        total_size(groups@.map_values(|g: (usize, u64)| g.0)) <= usize::MAX,
    ensures
        r.wall == wall,
        r.hints_bytes == total_size(groups@.map_values(|g: (usize, u64)| g.0)),
        r.checksum == xor_all(groups@.map_values(|g: (usize, u64)| g.1)),
{
    let n: usize = groups.len();
    let mut hints_bytes: usize = 0;
    let mut checksum: u64 = 0;
    let ghost sizes = groups@.map_values(|g: (usize, u64)| g.0);
    let ghost sums = groups@.map_values(|g: (usize, u64)| g.1);
    let mut i: usize = 0;
    while i < n
        invariant
            i <= n,
            n == groups@.len(),
            sizes == groups@.map_values(|g: (usize, u64)| g.0),
            sums == groups@.map_values(|g: (usize, u64)| g.1),
            total_size(sizes) <= usize::MAX,
            hints_bytes == total_size(sizes.take(i as int)),
            checksum == xor_all(sums.take(i as int)),
        decreases n - i,
    {
        let (size, sum) = groups[i];
        proof {
            lemma_total_size_prefix(sizes, i + 1);
            assert(sizes.take(i + 1).drop_last() =~= sizes.take(i as int));
            assert(sums.take(i + 1) =~= sums.take(i as int).push(sum));
            lemma_xor_all_push(sums.take(i as int), sum);
        }
        hints_bytes = hints_bytes + size;
        checksum = checksum ^ sum;
        i = i + 1;
    }
    assert(sizes.take(n as int) =~= sizes);
    assert(sums.take(n as int) =~= sums);
    HintRun { wall, hints_bytes, checksum }
}

proof fn lemma_equal_sizes(sizes: Seq<usize>, size: usize)
    requires
        forall|i: int| 0 <= i < sizes.len() ==> #[trigger] sizes[i] == size,
    ensures
        total_size(sizes) == sizes.len() * size,
    decreases sizes.len(),
{
    if sizes.len() > 0 {
        let n = sizes.len() - 1;
        let rest = sizes.drop_last();
        assert forall|i: int| 0 <= i < rest.len() implies #[trigger] rest[i] == size by {
            assert(sizes[i] == size);
        }
        lemma_equal_sizes(rest, size);
        assert(sizes[n] == size);
        assert(n * size + size == (n + 1) * size) by (nonlinear_arith);
    } else {
        assert(sizes.len() * size == 0) by (nonlinear_arith)
            requires
                sizes.len() == 0,
        ;
    }
}

/// Runs one trial of hint generation: makes the hints of all groups, and keeps their size and
/// checksum. `clock` tells the time.
pub fn run_trial<
    D,
    G: Fn(&[u8; 16], u32) -> D + Sync,
    F: Fn(&D, usize) -> Vec<usize> + Sync,
    H: Fn(usize, usize, &D) -> Vec<usize> + Sync,
    T: Fn(Mark) -> u128,
>(
    level: Level,
    all: &LevelParams,
    backend: Backend,
    prp_key: &[u8; 16],
    data: &[u8],
    hp: &HintParams,
    derive: &G,
    fast: &F,
    hoang: &H,
    clock: T,
) -> (r: HintRun)
    requires
        tables_fit(*hp, data@),
        hp.m * hp.entry_size <= usize::MAX,
        hp.k * (hp.m * hp.entry_size) <= usize::MAX,
        forall|g: usize|
            g < hp.k ==> #[trigger] group_ready(
                level,
                *all,
                backend,
                *prp_key,
                data@,
                *hp,
                g,
                derive,
                fast,
                hoang,
            ),
        clock_ready(clock),
    ensures
        measured_by(clock, Phase::Hints, r.wall),
        r.hints_bytes == hp.k * (hp.m * hp.entry_size),
        exists|hints: Seq<Vec<u8>>| #[trigger]
            all_hinted(
                level,
                *all,
                backend,
                *prp_key,
                data@,
                *hp,
                derive,
                fast,
                hoang,
                hints,
            ) && r.checksum == xor_all(checksums_of(hints)),
{
    let started: u128 = clock(Mark::Start(Phase::Hints));
    let groups = hints_of_groups(level, all, backend, prp_key, data, hp, derive, fast, hoang);
    let n: usize = groups.len();
    let mut sizes: Vec<(usize, u64)> = Vec::new();
    let mut i: usize = 0;
    while i < n
        invariant
            i <= n,
            n == groups@.len(),
            sizes@.len() == i,
            forall|j: int|
                0 <= j < i ==> #[trigger] sizes@[j] == (groups@[j].0@.len() as usize, groups@[j].1),
        decreases n - i,
    {
        sizes.push((groups[i].0.len(), groups[i].1));
        i = i + 1;
    }
    let ended: u128 = clock(Mark::End(Phase::Hints));
    assert(call_ensures(clock, (Mark::Start(Phase::Hints),), started));
    assert(call_ensures(clock, (Mark::End(Phase::Hints),), ended));
    proof {
        let size = (hp.m * hp.entry_size) as usize;
        let lens = sizes@.map_values(|g: (usize, u64)| g.0);
        let sums = sizes@.map_values(|g: (usize, u64)| g.1);
        let hints = groups@.map_values(|g: (Vec<u8>, u64)| g.0);
        assert forall|j: int| 0 <= j < lens.len() implies #[trigger] lens[j] == size by {
            let g = j as usize;
            assert(groups@[g as int].0@.len() == hp.m * hp.entry_size);
            assert(sizes@[j].0 == size);
        }
        lemma_equal_sizes(lens, size);
        assert forall|g: usize| g < hp.k implies group_hinted(
            level,
            *all,
            backend,
            *prp_key,
            data@,
            *hp,
            g,
            derive,
            fast,
            hoang,
            (#[trigger] hints[g as int])@,
        ) by {
            assert(groups@[g as int].0 == hints[g as int]);
        }
        assert(sums =~= checksums_of(hints)) by {
            assert forall|j: int| 0 <= j < sums.len() implies sums[j]
                == checksums_of(hints)[j] by {
                let g = j as usize;
                assert(groups@[g as int].1 == checksum(groups@[g as int].0@));
                assert(sizes@[j].1 == groups@[j].1);
            }
        }
        assert(all_hinted(
            level,
            *all,
            backend,
            *prp_key,
            data@,
            *hp,
            derive,
            fast,
            hoang,
            hints,
        ));
    }
    collect_hint_sizes(&sizes, elapsed_time(started, ended))
}

/// What a measured trial of hint generation reports.
#[derive(Clone, Copy, Debug, PartialEq, Eq, Structural)]
pub struct HintSummary {
    pub max_queries: usize,
    pub hints_per_group: usize,
    pub request_bytes: usize,
    pub response_bytes: usize,
    pub checksum: u64,
}

/// The sizes of the hints of one group, and of one query and its answer.
pub open spec fn hint_summary(
    hp: HintParams,
    run: HintRun,
    backend: Backend,
    ids: BackendIds,
) -> HintSummary {
    HintSummary {
        max_queries: hp.padded_n / hp.t,
        hints_per_group: run.hints_bytes / hp.k,
        request_bytes: ((hp.t - 1) * 4) as usize,
        response_bytes: ((hp.t - 1) * hp.entry_size) as usize,
        checksum: run.checksum ^ (backend.spec_id(ids) as u64),
    }
}

/// One query and its answer have a size, and so have the hints of one group.
pub open spec fn hint_sizes_fit(hp: HintParams) -> bool {
    &&& hp.k > 0
    &&& hp.t > 0
    &&& (hp.t - 1) * 4 <= usize::MAX
    &&& (hp.t - 1) * hp.entry_size <= usize::MAX
}

/// The sizes of the hints of one group, and of one query and its answer.
pub fn summarize_hints(
    hp: &HintParams,
    run: &HintRun,
    backend: Backend,
    ids: &BackendIds,
) -> (r: HintSummary)
    requires
        hint_sizes_fit(*hp),
    ensures
        r == hint_summary(*hp, *run, backend, *ids),
{
    HintSummary {
        max_queries: hp.padded_n / hp.t,
        hints_per_group: run.hints_bytes / hp.k,
        request_bytes: (hp.t - 1) * 4,
        response_bytes: (hp.t - 1) * hp.entry_size,
        checksum: run.checksum ^ (backend.id(ids) as u64),
    }
}

} // verus!
