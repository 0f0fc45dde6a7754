//! The Merkle round: queries for the siblings on the paths of bins, and the servers' answers.
use crate::bytes::checksum_bytes;
use crate::dpf::dpf_key_wire_size;
use crate::kinds::{Level, MERKLE_ARITY, MERKLE_ROW_SIZE};
use crate::layout::{table_slice, TableLayout};
use crate::parallel::par_map;
use crate::random::target_bin;
use crate::tally::Verdict;
use crate::timing::{elapsed_time, parallel_time, Mark, Phase, PhaseTimes, MAX_NANOS};
use vstd::prelude::*;

#[allow(unused_imports)]
use crate::bytes::{checksum, lemma_xor_all_push, xor_all};
#[allow(unused_imports)]
use crate::dpf::key_wire_size;
#[allow(unused_imports)]
use crate::layout::lemma_table_in_file;
#[allow(unused_imports)]
use crate::random::target_of;
#[allow(unused_imports)]
use crate::timing::{clock_ready, lemma_total_time_prefix, longer, measured_by, total_time};

verus! {

/// The number of the node `height` levels above bin number `bin` that the bin lies below.
pub open spec fn ancestor(bin: nat, height: nat) -> nat
    decreases height,
{
    if height == 0 {
        bin
    } else {
        ancestor(bin, (height - 1) as nat) / (MERKLE_ARITY as nat)
    }
}

/// The queries of one trial: per sibling table and group one row, and for it one key per server.
pub struct MerkleKeys<K> {
    pub targets: Vec<Vec<usize>>,
    pub server0: Vec<Vec<K>>,
    pub server1: Vec<Vec<K>>,
    pub upload_per_server: usize,
}

/// The row of the sibling table `depth` levels above the bins that `group` queries.
pub open spec fn sibling_target(
    trial_index: usize,
    group: usize,
    bins_per_table: usize,
    level: Level,
    depth: nat,
) -> nat {
    ancestor(target_of(trial_index, group, bins_per_table, level), depth + 1)
}

/// The bytes of the keys for one server, where `dpf_ns` gives the domain of each sibling table.
pub open spec fn upload_bytes(k: usize, dpf_ns: Seq<u8>) -> nat
    decreases dpf_ns.len(),
{
    if dpf_ns.len() == 0 {
        0
    } else {
        upload_bytes(k, dpf_ns.drop_last()) + k as nat * key_wire_size(dpf_ns.last())
    }
}

proof fn lemma_upload_prefix(k: usize, dpf_ns: Seq<u8>, i: int)
    requires
        0 <= i <= dpf_ns.len(),
    ensures
        upload_bytes(k, dpf_ns.take(i)) <= upload_bytes(k, dpf_ns),
    decreases dpf_ns.len() - i,
{
    if i == dpf_ns.len() {
        assert(dpf_ns.take(i) =~= dpf_ns);
    } else {
        lemma_upload_prefix(k, dpf_ns, i + 1);
        assert(dpf_ns.take(i + 1).drop_last() =~= dpf_ns.take(i));
        let w = key_wire_size(dpf_ns[i]);
        assert(0 <= k as nat * w) by (nonlinear_arith);
    }
}

/// `gen` can be called for the row of every group.
pub open spec fn gen_accepts<K, F: Fn(u64, u8) -> (K, K)>(
    gen: F,
    level: Level,
    trial_index: usize,
    bins_per_table: usize,
    k: usize,
    depth: nat,
    dpf_n: u8,
) -> bool {
    forall|g: usize|
        g < k ==> #[trigger] call_requires(
            gen,
            (sibling_target(trial_index, g, bins_per_table, level, depth) as u64, dpf_n),
        )
}

/// The keys of one sibling table: one row per group, and keys that `gen` made for it, the first of
/// which went to server 0 and the second to server 1.
pub open spec fn level_keys_made<K, F: Fn(u64, u8) -> (K, K)>(
    gen: F,
    level: Level,
    trial_index: usize,
    bins_per_table: usize,
    k: usize,
    depth: nat,
    dpf_n: u8,
    targets: Seq<usize>,
    server0: Seq<K>,
    server1: Seq<K>,
) -> bool {
    &&& targets.len() == k
    &&& server0.len() == k
    &&& server1.len() == k
    &&& forall|g: usize|
        g < k ==> #[trigger] targets[g as int] == sibling_target(
            trial_index,
            g,
            bins_per_table,
            level,
            depth,
        )
    &&& forall|g: usize|
        #![trigger server0[g as int]]
        #![trigger server1[g as int]]
        g < k ==> call_ensures(
            gen,
            (targets[g as int] as u64, dpf_n),
            (server0[g as int], server1[g as int]),
        )
}

/// The queries of one trial: the keys of each sibling table, the lowest first, and the bytes that a
/// server is sent.
pub open spec fn keys_made<K, F: Fn(u64, u8) -> (K, K)>(
    gen: F,
    level: Level,
    trial_index: usize,
    bins_per_table: usize,
    k: usize,
    dpf_ns: Seq<u8>,
    keys: MerkleKeys<K>,
) -> bool {
    &&& keys.upload_per_server == upload_bytes(k, dpf_ns)
    &&& keys.targets@.len() == dpf_ns.len()
    &&& keys.server0@.len() == dpf_ns.len()
    &&& keys.server1@.len() == dpf_ns.len()
    &&& forall|d: int|
        0 <= d < dpf_ns.len() ==> level_keys_made(
            gen,
            level,
            trial_index,
            bins_per_table,
            k,
            d as nat,
            dpf_ns[d],
            (#[trigger] keys.targets@[d])@,
            keys.server0@[d]@,
            keys.server1@[d]@,
        )
}

/// Makes the keys of one sibling table.
fn generate_level_keys<K, F: Fn(u64, u8) -> (K, K)>(
    level: Level,
    trial_index: usize,
    bins_per_table: usize,
    k: usize,
    depth: usize,
    dpf_n: u8,
    gen: &F,
) -> (r: (Vec<usize>, Vec<K>, Vec<K>))
    requires
        k > 0 ==> bins_per_table > 0,
        gen_accepts(*gen, level, trial_index, bins_per_table, k, depth as nat, dpf_n),
    ensures
        level_keys_made(
            *gen,
            level,
            trial_index,
            bins_per_table,
            k,
            depth as nat,
            dpf_n,
            r.0@,
            r.1@,
            r.2@,
        ),
{
    let mut targets: Vec<usize> = Vec::new();
    let mut s0: Vec<K> = Vec::new();
    let mut s1: Vec<K> = Vec::new();
    let mut group: usize = 0;
    while group < k
        invariant
            group <= k,
            k > 0 ==> bins_per_table > 0,
            gen_accepts(*gen, level, trial_index, bins_per_table, k, depth as nat, dpf_n),
            level_keys_made(
                *gen,
                level,
                trial_index,
                bins_per_table,
                group,
                depth as nat,
                dpf_n,
                targets@,
                s0@,
                s1@,
            ),
        decreases k - group,
    {
        let mut node_idx: usize = target_bin(trial_index, group, bins_per_table, level);
        let ghost bin = node_idx as nat;
        let mut h: usize = 0;
        while h < depth
            invariant
                h <= depth,
                node_idx == ancestor(bin, h as nat),
            decreases depth - h,
        {
            node_idx = node_idx / MERKLE_ARITY;
            h = h + 1;
        }
        let alpha: usize = node_idx / MERKLE_ARITY;
        assert(alpha == sibling_target(trial_index, group, bins_per_table, level, depth as nat));
        assert(call_requires(
            *gen,
            (
                sibling_target(trial_index, group, bins_per_table, level, depth as nat) as u64,
                dpf_n,
            ),
        ));
        let (a, b) = gen(alpha as u64, dpf_n);
        targets.push(alpha);
        s0.push(a);
        s1.push(b);
        group = group + 1;
    }
    (targets, s0, s1)
}

/// Has `gen` make the keys for the row of every sibling table that holds the siblings on the path
/// of each group's bin. `dpf_ns` gives the domain of each sibling table, the lowest first.
fn generate_domain_keys<K, F: Fn(u64, u8) -> (K, K)>(
    level: Level,
    trial_index: usize,
    bins_per_table: usize,
    k: usize,
    dpf_ns: &Vec<u8>,
    gen: &F,
) -> (r: MerkleKeys<K>)
    requires
        dpf_ns@.len() > 0 && k > 0 ==> bins_per_table > 0,
        upload_bytes(k, dpf_ns@) <= usize::MAX,
        forall|d: int|
            0 <= d < dpf_ns@.len() ==> gen_accepts(
                *gen,
                level,
                trial_index,
                bins_per_table,
                k,
                d as nat,
                #[trigger] dpf_ns@[d],
            ),
    ensures
        keys_made(*gen, level, trial_index, bins_per_table, k, dpf_ns@, r),
{
    let n: usize = dpf_ns.len();
    let mut targets: Vec<Vec<usize>> = Vec::new();
    let mut server0: Vec<Vec<K>> = Vec::new();
    let mut server1: Vec<Vec<K>> = Vec::new();
    let mut upload_per_server: usize = 0;
    let mut depth: usize = 0;
    while depth < n
        invariant
            depth <= n,
            n == dpf_ns@.len(),
            n > 0 && k > 0 ==> bins_per_table > 0,
            upload_bytes(k, dpf_ns@) <= usize::MAX,
            upload_per_server == upload_bytes(k, dpf_ns@.take(depth as int)),
            targets@.len() == depth,
            server0@.len() == depth,
            server1@.len() == depth,
            forall|d: int|
                0 <= d < dpf_ns@.len() ==> gen_accepts(
                    *gen,
                    level,
                    trial_index,
                    bins_per_table,
                    k,
                    d as nat,
                    #[trigger] dpf_ns@[d],
                ),
            forall|d: int|
                0 <= d < depth ==> level_keys_made(
                    *gen,
                    level,
                    trial_index,
                    bins_per_table,
                    k,
                    d as nat,
                    dpf_ns@[d],
                    (#[trigger] targets@[d])@,
                    server0@[d]@,
                    server1@[d]@,
                ),
        decreases n - depth,
    {
        let dpf_n: u8 = dpf_ns[depth];
        proof {
            lemma_upload_prefix(k, dpf_ns@, depth + 1);
            assert(dpf_ns@.take(depth + 1).drop_last() =~= dpf_ns@.take(depth as int));
        }
        upload_per_server = upload_per_server + k * dpf_key_wire_size(dpf_n);
        let (level_targets, level_s0, level_s1) = generate_level_keys(
            level,
            trial_index,
            bins_per_table,
            k,
            depth,
            dpf_n,
            gen,
        );
        targets.push(level_targets);
        server0.push(level_s0);
        server1.push(level_s1);
        depth = depth + 1;
    }
    assert(dpf_ns@.take(n as int) =~= dpf_ns@);
    MerkleKeys { targets, server0, server1, upload_per_server }
}

/// A sibling table: the file that holds it, and the file's layout.
#[derive(Clone, Copy)]
pub struct SiblingTable<'a> {
    pub data: &'a [u8],
    pub layout: TableLayout,
}

impl SiblingTable<'_> {
    /// The layout is that of the file.
    pub open spec fn wf(self) -> bool {
        self.layout.wf() && self.data@.len() == self.layout.file_bytes
    }

    /// The table of `group`.
    pub open spec fn table(self, group: int) -> Seq<u8> {
        self.layout.table(self.data@, group)
    }
}

/// `dpf_ns` are the domains that `domain` gives for the number of bins of each sibling table.
pub open spec fn domains_of<N: Fn(usize) -> u8>(
    domain: N,
    siblings: Seq<SiblingTable<'_>>,
    dpf_ns: Seq<u8>,
) -> bool {
    &&& dpf_ns.len() == siblings.len()
    &&& forall|d: int|
        0 <= d < siblings.len() ==> call_ensures(
            domain,
            (siblings[d].layout.bins_per_table,),
            #[trigger] dpf_ns[d],
        )
}

/// `domain` can be asked for every sibling table; whatever it gives, `gen` can make the keys, and
/// their bytes can be counted.
pub open spec fn keys_ready<K, F: Fn(u64, u8) -> (K, K), N: Fn(usize) -> u8>(
    level: Level,
    trial_index: usize,
    bins_per_table: usize,
    k: usize,
    siblings: Seq<SiblingTable<'_>>,
    domain: N,
    gen: F,
) -> bool {
    &&& forall|d: int|
        0 <= d < siblings.len() ==> call_requires(
            domain,
            ((#[trigger] siblings[d]).layout.bins_per_table,),
        )
    &&& forall|dpf_ns: Seq<u8>| #[trigger]
        domains_of(domain, siblings, dpf_ns) ==> upload_bytes(k, dpf_ns) <= usize::MAX
    &&& forall|dpf_ns: Seq<u8>, d: int|
        domains_of(domain, siblings, dpf_ns) && 0 <= d < dpf_ns.len() ==> gen_accepts(
            gen,
            level,
            trial_index,
            bins_per_table,
            k,
            d as nat,
            #[trigger] dpf_ns[d],
        )
}

/// Has `gen` make the keys for the row of every sibling table that holds the siblings on the path
/// of each group's bin. `domain` gives the domain of the keys for a number of bins.
pub fn generate_keys<K, F: Fn(u64, u8) -> (K, K), N: Fn(usize) -> u8>(
    level: Level,
    trial_index: usize,
    bins_per_table: usize,
    k: usize,
    siblings: &Vec<SiblingTable<'_>>,
    domain: &N,
    gen: &F,
) -> (r: MerkleKeys<K>)
    requires
        siblings@.len() > 0 && k > 0 ==> bins_per_table > 0,
        keys_ready(level, trial_index, bins_per_table, k, siblings@, *domain, *gen),
    ensures
        exists|dpf_ns: Seq<u8>| #[trigger]
            domains_of(*domain, siblings@, dpf_ns) && keys_made(
                *gen,
                level,
                trial_index,
                bins_per_table,
                k,
                dpf_ns,
                r,
            ),
{
    let n: usize = siblings.len();
    let mut dpf_ns: Vec<u8> = Vec::new();
    let mut depth: usize = 0;
    while depth < n
        invariant
            depth <= n,
            n == siblings@.len(),
            keys_ready(level, trial_index, bins_per_table, k, siblings@, *domain, *gen),
            dpf_ns@.len() == depth,
            forall|d: int|
                0 <= d < depth ==> call_ensures(
                    *domain,
                    (siblings@[d].layout.bins_per_table,),
                    #[trigger] dpf_ns@[d],
                ),
        decreases n - depth,
    {
        let bins: usize = siblings[depth].layout.bins_per_table;
        assert(call_requires(*domain, (siblings@[depth as int].layout.bins_per_table,)));
        let dpf_n: u8 = domain(bins);
        let ghost before = dpf_ns@;
        dpf_ns.push(dpf_n);
        assert forall|d: int| 0 <= d < depth + 1 implies call_ensures(
            *domain,
            (siblings@[d].layout.bins_per_table,),
            #[trigger] dpf_ns@[d],
        ) by {
            if d < depth {
                assert(dpf_ns@[d] == before[d]);
            }
        }
        depth = depth + 1;
    }
    assert(domains_of(*domain, siblings@, dpf_ns@));
    generate_domain_keys(level, trial_index, bins_per_table, k, &dpf_ns, gen)
}

/// A server's work on one group of one sibling table.
pub struct RowRun {
    pub row: Vec<u8>,
    pub times: PhaseTimes,
    pub checksum: u64,
}

/// A server's work on all groups of all sibling tables.
pub struct MerkleServerRun {
    pub outputs: Vec<Vec<Vec<u8>>>,
    pub wall: u128,
    pub dpf_sum: u128,
    pub fetch_sum: u128,
    pub checksum: u64,
}

/// `eval` can be called for a group with the table `table`, and answers the query.
pub open spec fn row_ready<K, E: Fn(&K, &[u8], usize, usize) -> (Vec<Vec<u8>>, PhaseTimes)>(
    key: K,
    table: Seq<u8>,
    bins_per_table: usize,
    eval: &E,
) -> bool {
    &&& forall|t: &[u8]|
        t@ == table ==> #[trigger] call_requires(*eval, (&key, t, bins_per_table, MERKLE_ROW_SIZE))
    &&& forall|t: &[u8], rows: Vec<Vec<u8>>, times: PhaseTimes|
        t@ == table && #[trigger] call_ensures(
            *eval,
            (&key, t, bins_per_table, MERKLE_ROW_SIZE),
            (rows, times),
        ) ==> rows@.len() >= 1
}

/// `run` is a server's work on a group with the table `table`: the first row that `eval` returns,
/// asked for rows that hold the hashes of all children of one node.
pub open spec fn row_ran<K, E: Fn(&K, &[u8], usize, usize) -> (Vec<Vec<u8>>, PhaseTimes)>(
    key: K,
    table: Seq<u8>,
    bins_per_table: usize,
    eval: &E,
    run: RowRun,
) -> bool {
    &&& exists|t: &[u8], rows: Vec<Vec<u8>>|
        t@ == table && #[trigger] call_ensures(
            *eval,
            (&key, t, bins_per_table, MERKLE_ROW_SIZE),
            (rows, run.times),
        ) && rows@.len() >= 1 && rows@[0] == run.row
    &&& run.checksum == checksum(run.row@)
}

/// One server's work on one group of a sibling table: has `eval` answer the query over the group's
/// table.
pub fn process_sibling_group<
    K,
    E: Fn(&K, &[u8], usize, usize) -> (Vec<Vec<u8>>, PhaseTimes),
>(key: &K, table: &SiblingTable<'_>, group: usize, eval: &E) -> (r: RowRun)
    requires
        table.wf(),
        group < table.layout.k,
        row_ready(*key, table.table(group as int), table.layout.bins_per_table, eval),
    ensures
        row_ran(*key, table.table(group as int), table.layout.bins_per_table, eval, r),
{
    let l = table.layout;
    proof {
        lemma_table_in_file(l, group as int);
    }
    let bytes = table_slice(table.data, l.header_size, l.table_byte_size, group);
    let (mut rows, times) = eval(key, bytes, l.bins_per_table, MERKLE_ROW_SIZE);
    let ghost made = rows;
    let row = rows.remove(0);
    let checksum = checksum_bytes(row.as_slice());
    let r = RowRun { row, times, checksum };
    assert(call_ensures(
        *eval,
        (key, bytes, l.bins_per_table, MERKLE_ROW_SIZE),
        (made, r.times),
    ) && made@[0] == r.row);
    r
}

/// The evaluation times of `rows`.
pub open spec fn row_dpf_times(rows: Seq<RowRun>) -> Seq<u128> {
    rows.map_values(|r: RowRun| r.times.dpf_eval)
}

/// The fetch times of `rows`.
pub open spec fn row_fetch_times(rows: Seq<RowRun>) -> Seq<u128> {
    rows.map_values(|r: RowRun| r.times.fetch_xor)
}

impl MerkleServerRun {
    /// A server that has not done anything yet.
    pub fn new() -> (r: MerkleServerRun)
        ensures
            r.outputs@.len() == 0,
            r.wall == 0,
            r.dpf_sum == 0,
            r.fetch_sum == 0,
            r.checksum == 0,
    {
        MerkleServerRun { outputs: Vec::new(), wall: 0, dpf_sum: 0, fetch_sum: 0, checksum: 0 }
    }

    /// Adds a server's work on all groups of the next sibling table.
    pub fn add_level(&mut self, rows: Vec<RowRun>)
        requires
            old(self).dpf_sum + total_time(row_dpf_times(rows@)) <= MAX_NANOS,
            old(self).fetch_sum + total_time(row_fetch_times(rows@)) <= MAX_NANOS,
        ensures
            final(self).outputs@.len() == old(self).outputs@.len() + 1,
            final(self).outputs@.drop_last() == old(self).outputs@,
            final(self).outputs@.last()@ == rows@.map_values(|r: RowRun| r.row),
            final(self).wall == old(self).wall,
            final(self).dpf_sum == old(self).dpf_sum + total_time(row_dpf_times(rows@)),
            final(self).fetch_sum == old(self).fetch_sum + total_time(row_fetch_times(rows@)),
            final(self).checksum == old(self).checksum ^ xor_all(
                rows@.map_values(|r: RowRun| r.checksum),
            ),
    {
        let mut level_outputs: Vec<Vec<u8>> = Vec::new();
        let mut dpf_sum: u128 = self.dpf_sum;
        let mut fetch_sum: u128 = self.fetch_sum;
        let mut checksum: u64 = 0;
        let ghost dpf0 = self.dpf_sum;
        let ghost fetch0 = self.fetch_sum;
        let ghost all = rows@;
        let ghost sums = rows@.map_values(|r: RowRun| r.checksum);
        for row in it: rows
            invariant
                it.seq() == all,
                sums == all.map_values(|r: RowRun| r.checksum),
                dpf0 + total_time(row_dpf_times(all)) <= MAX_NANOS,
                fetch0 + total_time(row_fetch_times(all)) <= MAX_NANOS,
                level_outputs@ =~= all.take(it.index()).map_values(|r: RowRun| r.row),
                dpf_sum == dpf0 + total_time(row_dpf_times(all).take(it.index())),
                fetch_sum == fetch0 + total_time(row_fetch_times(all).take(it.index())),
                checksum == xor_all(sums.take(it.index())),
        {
            proof {
                let i = it.index();
                let d = row_dpf_times(all);
                let f = row_fetch_times(all);
                lemma_total_time_prefix(d, i + 1);
                lemma_total_time_prefix(f, i + 1);
                assert(d.take(i + 1).drop_last() =~= d.take(i));
                assert(f.take(i + 1).drop_last() =~= f.take(i));
                assert(sums.take(i + 1) =~= sums.take(i).push(row.checksum));
                lemma_xor_all_push(sums.take(i), row.checksum);
            }
            dpf_sum = dpf_sum + row.times.dpf_eval;
            fetch_sum = fetch_sum + row.times.fetch_xor;
            checksum = checksum ^ row.checksum;
            level_outputs.push(row.row);
        }
        assert(row_dpf_times(all).take(all.len() as int) =~= row_dpf_times(all));
        assert(row_fetch_times(all).take(all.len() as int) =~= row_fetch_times(all));
        assert(sums.take(all.len() as int) =~= sums);
        assert(all.take(all.len() as int) =~= all);
        self.outputs.push(level_outputs);
        self.dpf_sum = dpf_sum;
        self.fetch_sum = fetch_sum;
        self.checksum = self.checksum ^ checksum;
        assert(self.outputs@.drop_last() =~= old(self).outputs@);
    }
}

/// The evaluation times of `levels` together.
pub open spec fn levels_dpf_time(levels: Seq<Seq<RowRun>>) -> nat
    decreases levels.len(),
{
    if levels.len() == 0 {
        0
    } else {
        levels_dpf_time(levels.drop_last()) + total_time(row_dpf_times(levels.last()))
    }
}

/// The fetch times of `levels` together.
pub open spec fn levels_fetch_time(levels: Seq<Seq<RowRun>>) -> nat
    decreases levels.len(),
{
    if levels.len() == 0 {
        0
    } else {
        levels_fetch_time(levels.drop_last()) + total_time(row_fetch_times(levels.last()))
    }
}

/// Exclusive or of the checksums of all rows of `levels`.
pub open spec fn levels_checksum(levels: Seq<Seq<RowRun>>) -> u64
    decreases levels.len(),
{
    if levels.len() == 0 {
        0
    } else {
        levels_checksum(levels.drop_last()) ^ xor_all(
            levels.last().map_values(|r: RowRun| r.checksum),
        )
    }
}

/// `run` puts together a server's work on all groups of all sibling tables.
pub open spec fn levels_collected(levels: Seq<Seq<RowRun>>, run: MerkleServerRun) -> bool {
    &&& run.outputs@.len() == levels.len()
    &&& forall|d: int|
        0 <= d < levels.len() ==> (#[trigger] run.outputs@[d])@ == levels[d].map_values(
            |r: RowRun| r.row,
        )
    &&& run.dpf_sum == levels_dpf_time(levels)
    &&& run.fetch_sum == levels_fetch_time(levels)
    &&& run.checksum == levels_checksum(levels)
}

/// `rows` are a server's work on each group of a sibling table, with the keys `keys`.
pub open spec fn rows_ran<K, E: Fn(&K, &[u8], usize, usize) -> (Vec<Vec<u8>>, PhaseTimes)>(
    keys: Seq<K>,
    table: SiblingTable<'_>,
    eval: &E,
    rows: Seq<RowRun>,
) -> bool {
    &&& rows.len() == keys.len()
    &&& forall|g: int|
        0 <= g < keys.len() ==> row_ran(
            keys[g],
            table.table(g),
            table.layout.bins_per_table,
            eval,
            #[trigger] rows[g],
        )
}

/// `levels` are a server's work on the first sibling tables, the lowest first.
pub open spec fn levels_ran<K, E: Fn(&K, &[u8], usize, usize) -> (Vec<Vec<u8>>, PhaseTimes)>(
    keys: Seq<Vec<K>>,
    siblings: Seq<SiblingTable<'_>>,
    eval: &E,
    levels: Seq<Seq<RowRun>>,
) -> bool {
    &&& levels.len() <= siblings.len()
    &&& forall|d: int|
        0 <= d < levels.len() ==> rows_ran(keys[d]@, siblings[d], eval, #[trigger] levels[d])
}

/// There are keys for every sibling table, and it has a group for each of them.
pub open spec fn tables_suffice<K>(keys: Seq<Vec<K>>, siblings: Seq<SiblingTable<'_>>) -> bool {
    &&& siblings.len() <= keys.len()
    &&& forall|d: int|
        0 <= d < siblings.len() ==> (#[trigger] siblings[d]).wf() && keys[d]@.len()
            <= siblings[d].layout.k
}

/// `eval` can be called for every group of every sibling table, and the times that it takes add up
/// to no more than a time can be.
pub open spec fn server_ready<K, E: Fn(&K, &[u8], usize, usize) -> (Vec<Vec<u8>>, PhaseTimes)>(
    keys: Seq<Vec<K>>,
    siblings: Seq<SiblingTable<'_>>,
    eval: &E,
) -> bool {
    &&& forall|d: int, g: int|
        0 <= d < siblings.len() && 0 <= g < keys[d]@.len() ==> row_ready(
            #[trigger] keys[d]@[g],
            siblings[d].table(g),
            siblings[d].layout.bins_per_table,
            eval,
        )
    &&& forall|levels: Seq<Seq<RowRun>>| #[trigger]
        levels_ran(keys, siblings, eval, levels) ==> levels_dpf_time(levels) <= MAX_NANOS
            && levels_fetch_time(levels) <= MAX_NANOS
}

/// `run` is a server's work on all groups of all sibling tables, with the keys `keys`.
pub open spec fn served<K, E: Fn(&K, &[u8], usize, usize) -> (Vec<Vec<u8>>, PhaseTimes)>(
    keys: Seq<Vec<K>>,
    siblings: Seq<SiblingTable<'_>>,
    eval: &E,
    run: MerkleServerRun,
) -> bool {
    exists|levels: Seq<Seq<RowRun>>| #[trigger]
        levels_ran(keys, siblings, eval, levels) && levels.len() == siblings.len()
            && levels_collected(levels, run)
}

/// One server's work on all groups of one sibling table, which are worked on in parallel.
fn process_level<K: Sync, E: Fn(&K, &[u8], usize, usize) -> (Vec<Vec<u8>>, PhaseTimes) + Sync>(
    keys: &Vec<K>,
    table: &SiblingTable<'_>,
    eval: &E,
) -> (r: Vec<RowRun>)
    requires
        table.wf(),
        keys@.len() <= table.layout.k,
        forall|g: int|
            0 <= g < keys@.len() ==> row_ready(
                #[trigger] keys@[g],
                table.table(g),
                table.layout.bins_per_table,
                eval,
            ),
    ensures
        rows_ran(keys@, *table, eval, r@),
{
    let n: usize = keys.len();
    let work = |group: usize| -> (run: RowRun)
        requires
            group < keys@.len(),
            keys@.len() <= table.layout.k,
            table.wf(),
            row_ready(
                keys@[group as int],
                table.table(group as int),
                table.layout.bins_per_table,
                eval,
            ),
        ensures
            row_ran(
                keys@[group as int],
                table.table(group as int),
                table.layout.bins_per_table,
                eval,
                run,
            ),
        { process_sibling_group(&keys[group], table, group, eval) };
    let rows: Vec<RowRun> = par_map(n, work);
    assert forall|g: int| 0 <= g < keys@.len() implies row_ran(
        keys@[g],
        table.table(g),
        table.layout.bins_per_table,
        eval,
        #[trigger] rows@[g],
    ) by {
        let i = g as usize;
        assert(call_ensures(work, (i,), rows@[i as int]));
    }
    rows
}

/// One server's work on all groups of all sibling tables; keys beyond the last table are not used.
/// `clock` tells the time, and `phase` says which server's work it is to measure.
pub fn process_server<
    K: Sync,
    E: Fn(&K, &[u8], usize, usize) -> (Vec<Vec<u8>>, PhaseTimes) + Sync,
    T: Fn(Mark) -> u128,
>(
    keys: &Vec<Vec<K>>,
    siblings: &Vec<SiblingTable<'_>>,
    eval: &E,
    phase: Phase,
    clock: &T,
) -> (r: MerkleServerRun)
    requires
        tables_suffice(keys@, siblings@),
        server_ready(keys@, siblings@, eval),
        clock_ready(*clock),
    ensures
        served(keys@, siblings@, eval, r),
        measured_by(*clock, phase, r.wall),
{
    let n: usize = siblings.len();
    let started: u128 = clock(Mark::Start(phase));
    let mut run = MerkleServerRun::new();
    let ghost mut levels: Seq<Seq<RowRun>> = Seq::empty();
    let mut depth: usize = 0;
    while depth < n
        invariant
            depth <= n,
            n == siblings@.len(),
            tables_suffice(keys@, siblings@),
            server_ready(keys@, siblings@, eval),
            levels.len() == depth,
            levels_ran(keys@, siblings@, eval, levels),
            levels_collected(levels, run),
        decreases n - depth,
    {
        let ghost before = levels;
        let ghost outputs = run.outputs@;
        assert(siblings@[depth as int].wf());
        let rows = process_level(&keys[depth], &siblings[depth], eval);
        proof {
            levels = before.push(rows@);
            assert(levels.drop_last() =~= before);
            assert forall|d: int| 0 <= d < levels.len() implies rows_ran(
                keys@[d]@,
                siblings@[d],
                eval,
                #[trigger] levels[d],
            ) by {
                if d < depth {
                    assert(levels[d] == before[d]);
                }
            }
            assert(levels_ran(keys@, siblings@, eval, levels));
        }
        run.add_level(rows);
        assert forall|d: int| 0 <= d < levels.len() implies (#[trigger] run.outputs@[d])@
            == levels[d].map_values(|r: RowRun| r.row) by {
            if d < depth {
                assert(run.outputs@.drop_last()[d] == outputs[d]);
                assert(levels[d] == before[d]);
            }
        }
        depth = depth + 1;
    }
    let ended: u128 = clock(Mark::End(phase));
    assert(call_ensures(*clock, (Mark::Start(phase),), started));
    assert(call_ensures(*clock, (Mark::End(phase),), ended));
    run.wall = elapsed_time(started, ended);
    assert(levels_collected(levels, run));
    run
}

/// The sizes of a trial, its times besides the servers' own, and its checksum.
#[derive(Clone, Copy, Debug, PartialEq, Eq, Structural)]
pub struct MerkleSummary {
    pub server_parallel: u128,
    pub total_parallel: u128,
    pub verified_groups: usize,
    pub download_per_server: usize,
    pub checksum: u64,
}

/// The sizes and times of one trial.
pub open spec fn merkle_summary(
    k: usize,
    siblings: usize,
    keygen: u128,
    s0: MerkleServerRun,
    s1: MerkleServerRun,
    verdict: Verdict,
    verify_wall: u128,
) -> MerkleSummary {
    MerkleSummary {
        server_parallel: longer(s0.wall, s1.wall),
        total_parallel: (keygen + longer(s0.wall, s1.wall) + verify_wall) as u128,
        verified_groups: k,
        download_per_server: (siblings * k * MERKLE_ROW_SIZE) as usize,
        checksum: s0.checksum ^ s1.checksum ^ verdict.checksum,
    }
}

/// The sizes and times of one trial.
pub fn summarize_merkle(
    k: usize,
    siblings: usize,
    keygen: u128,
    s0: &MerkleServerRun,
    s1: &MerkleServerRun,
    verdict: &Verdict,
    verify_wall: u128,
) -> (r: MerkleSummary)
    requires
        siblings * k * MERKLE_ROW_SIZE <= usize::MAX,
        keygen + longer(s0.wall, s1.wall) + verify_wall <= MAX_NANOS,
    ensures
        r == merkle_summary(k, siblings, keygen, *s0, *s1, *verdict, verify_wall),
{
    assert(0 <= siblings * k) by (nonlinear_arith);
    let server_parallel: u128 = parallel_time(s0.wall, s1.wall);
    MerkleSummary {
        server_parallel,
        total_parallel: keygen + server_parallel + verify_wall,
        verified_groups: k,
        download_per_server: siblings * k * MERKLE_ROW_SIZE,
        checksum: s0.checksum ^ s1.checksum ^ verdict.checksum,
    }
}

/// The bytes of all files of an artifact.
#[derive(Clone, Copy, Debug, PartialEq, Eq, Structural)]
pub struct ArtifactBytes {
    pub sibling_bytes_total: usize,
    pub file_bytes: usize,
}

/// The sum of the sizes of the sibling files.
pub open spec fn sibling_bytes(siblings: Seq<TableLayout>) -> nat
    decreases siblings.len(),
{
    if siblings.len() == 0 {
        0
    } else {
        sibling_bytes(siblings.drop_last()) + siblings.last().file_bytes as nat
    }
}

proof fn lemma_sibling_bytes_prefix(siblings: Seq<TableLayout>, i: int)
    requires
        0 <= i <= siblings.len(),
    ensures
        sibling_bytes(siblings.take(i)) <= sibling_bytes(siblings),
    decreases siblings.len() - i,
{
    if i == siblings.len() {
        assert(siblings.take(i) =~= siblings);
    } else {
        lemma_sibling_bytes_prefix(siblings, i + 1);
        assert(siblings.take(i + 1).drop_last() =~= siblings.take(i));
    }
}

/// The bytes of the files of an artifact.
pub open spec fn artifact_size(
    data: TableLayout,
    siblings: Seq<TableLayout>,
    tree_top_bytes: usize,
) -> ArtifactBytes {
    ArtifactBytes {
        sibling_bytes_total: sibling_bytes(siblings) as usize,
        file_bytes: (data.file_bytes + sibling_bytes(siblings) + tree_top_bytes) as usize,
    }
}

/// Adds up the bytes of the files of an artifact.
pub fn artifact_bytes(
    data: &TableLayout,
    siblings: &Vec<TableLayout>,
    tree_top_bytes: usize,
) -> (r: ArtifactBytes)
    requires
        data.file_bytes + sibling_bytes(siblings@) + tree_top_bytes <= usize::MAX,
    ensures
        r == artifact_size(*data, siblings@, tree_top_bytes),
{
    let n: usize = siblings.len();
    let mut total: usize = 0;
    let mut i: usize = 0;
    while i < n
        invariant
            i <= n,
            n == siblings@.len(),
            sibling_bytes(siblings@) <= usize::MAX,
            total == sibling_bytes(siblings@.take(i as int)),
        decreases n - i,
    {
        proof {
            lemma_sibling_bytes_prefix(siblings@, i + 1);
            assert(siblings@.take(i + 1).drop_last() =~= siblings@.take(i as int));
        }
        total = total + siblings[i].file_bytes;
        i = i + 1;
    }
    assert(siblings@.take(n as int) =~= siblings@);
    ArtifactBytes {
        sibling_bytes_total: total,
        file_bytes: data.file_bytes + total + tree_top_bytes,
    }
}

} // verus!
