//! Laws of the hints: what each of them takes in, and that they are linear in the table, so a
//! change of the table changes them by the hints of that change.
use crate::hints::{HintParams, HintRun};
use crate::kinds::{Backend, BackendIds, Level, LevelParams};
use crate::layout::TableLayout;
use vstd::prelude::*;

#[allow(unused_imports)]
use crate::bytes::{checksum, xor_seq, zeros};
#[allow(unused_imports)]
use crate::hints::{
    all_hinted, cells_made, checksums_of, group_hinted, group_number, hint_summary, table_hinted,
    total_len, total_size,
};
#[allow(unused_imports)]
use crate::layout::entry_at;
#[allow(unused_imports)]
use crate::select::{law_selection_is_linear, law_selection_of_bytes, lemma_select_zeros};
#[allow(unused_imports)]
use vstd::arithmetic::div_mod::{lemma_fundamental_div_mod, lemma_mod_bound};
#[allow(unused_imports)]
use vstd::arithmetic::mul::lemma_mul_is_commutative;

verus! {

/// Entry `i` lies within `count` entries of `size` bytes.
proof fn lemma_entry_bounds(i: int, count: int, size: int)
    requires
        0 <= i < count,
        0 <= size,
    ensures
        0 <= i * size,
        i * size + size <= count * size,
{
    assert(0 <= i * size && i * size + size <= count * size) by (nonlinear_arith)
        requires
            0 <= i < count,
            0 <= size,
    ;
}

/// Byte `j` of `count` entries of `size` bytes lies in one of them.
proof fn lemma_byte_in_entry(j: int, count: int, size: int) -> (s: int)
    requires
        0 <= j < count * size,
        0 <= count,
        0 <= size,
    ensures
        0 <= s < count,
        s * size <= j < s * size + size,
{
    assert(size > 0) by (nonlinear_arith)
        requires
            0 <= j < count * size,
            0 <= count,
            0 <= size,
    ;
    let s = j / size;
    lemma_fundamental_div_mod(j, size);
    lemma_mod_bound(j, size);
    lemma_mul_is_commutative(size, s);
    assert(0 <= s < count) by (nonlinear_arith)
        requires
            0 <= j < count * size,
            s * size <= j < s * size + size,
            size > 0,
    ;
    s
}

/// Byte strings of `count` entries of `size` bytes that agree in every entry are the same.
proof fn lemma_entries_tell_bytes(a: Seq<u8>, b: Seq<u8>, count: int, size: usize)
    requires
        0 <= count,
        a.len() == count * size,
        b.len() == count * size,
        forall|s: int| 0 <= s < count ==> #[trigger] entry_at(a, size, s) == entry_at(b, size, s),
    ensures
        a == b,
{
    assert forall|j: int| 0 <= j < a.len() implies a[j] == b[j] by {
        let s = lemma_byte_in_entry(j, count, size as int);
        lemma_entry_bounds(s, count, size as int);
        assert(entry_at(a, size, s) == entry_at(b, size, s));
        assert(entry_at(a, size, s)[j - s * size] == a[j]);
        assert(entry_at(b, size, s)[j - s * size] == b[j]);
    }
    assert(a =~= b);
}

/// An entry of the combination of two byte strings is the combination of their entries.
proof fn lemma_entry_of_xor(a: Seq<u8>, b: Seq<u8>, size: usize, i: int, count: int)
    requires
        a.len() == b.len(),
        0 <= i < count,
        count * size <= a.len(),
    ensures
        entry_at(a, size, i).len() == size,
        entry_at(b, size, i).len() == size,
        entry_at(xor_seq(a, b), size, i) == xor_seq(entry_at(a, size, i), entry_at(b, size, i)),
{
    lemma_entry_bounds(i, count, size as int);
    assert(entry_at(xor_seq(a, b), size, i) =~= xor_seq(
        entry_at(a, size, i),
        entry_at(b, size, i),
    ));
}

proof fn lemma_entries_in_table(hp: HintParams, table: Seq<u8>)
    requires
        hp.table_bytes() <= table.len(),
    ensures
        hp.entries() * hp.entry_size <= table.len(),
{
    assert(hp.entries() * hp.entry_size <= hp.bins_per_table * hp.entry_size) by (nonlinear_arith)
        requires
            hp.entries() <= hp.bins_per_table,
    ;
}

/// The hint of one segment is linear in the table.
proof fn lemma_hint_linear(
    hp: HintParams,
    cell_of: Seq<usize>,
    a: Seq<u8>,
    b: Seq<u8>,
    segment: int,
)
    requires
        a.len() == b.len(),
        hp.table_bytes() <= a.len(),
    ensures
        hp.hint_of(cell_of, xor_seq(a, b), segment) == xor_seq(
            hp.hint_of(cell_of, a, segment),
            hp.hint_of(cell_of, b, segment),
        ),
{
    let rows_a = hp.table_entries(a);
    let rows_b = hp.table_entries(b);
    let rows = hp.table_entries(xor_seq(a, b));
    let count = hp.entries() as int;
    lemma_entries_in_table(hp, a);
    assert forall|i: int| 0 <= i < rows_a.len() implies (#[trigger] rows_a[i]).len()
        == hp.entry_size by {
        lemma_entry_of_xor(a, b, hp.entry_size, i, count);
    }
    assert forall|i: int| 0 <= i < rows_b.len() implies (#[trigger] rows_b[i]).len()
        == hp.entry_size by {
        lemma_entry_of_xor(a, b, hp.entry_size, i, count);
    }
    assert forall|i: int| 0 <= i < rows_a.len() implies #[trigger] rows[i] == xor_seq(
        rows_a[i],
        rows_b[i],
    ) by {
        lemma_entry_of_xor(a, b, hp.entry_size, i, count);
    }
    law_selection_is_linear(
        rows_a,
        rows_b,
        rows,
        hp.in_segment(cell_of, segment),
        hp.entry_size as nat,
    );
}

/// Hints are linear in the table: under one layout of the cells, the hints of the combination of
/// two tables are the combination of the hints of each.
pub proof fn law_hints_linear(
    hp: HintParams,
    cell_of: Seq<usize>,
    a: Seq<u8>,
    b: Seq<u8>,
    hints_a: Seq<u8>,
    hints_b: Seq<u8>,
    hints: Seq<u8>,
)
    requires
        a.len() == b.len(),
        hp.table_bytes() <= a.len(),
        hp.holds_hints(hints_a, cell_of, a),
        hp.holds_hints(hints_b, cell_of, b),
        hp.holds_hints(hints, cell_of, xor_seq(a, b)),
    ensures
        hints == xor_seq(hints_a, hints_b),
{
    let m = hp.m as int;
    assert forall|s: int| 0 <= s < m implies #[trigger] entry_at(hints, hp.entry_size, s)
        == entry_at(xor_seq(hints_a, hints_b), hp.entry_size, s) by {
        lemma_hint_linear(hp, cell_of, a, b, s);
        lemma_entry_of_xor(hints_a, hints_b, hp.entry_size, s, m);
        assert(entry_at(hints_a, hp.entry_size, s) == hp.hint_of(cell_of, a, s));
        assert(entry_at(hints_b, hp.entry_size, s) == hp.hint_of(cell_of, b, s));
    }
    lemma_entries_tell_bytes(hints, xor_seq(hints_a, hints_b), m, hp.entry_size);
}

/// Whatever the layout of the cells, a table of zeros has hints of zeros.
pub proof fn law_zero_table_has_zero_hints(
    hp: HintParams,
    cell_of: Seq<usize>,
    len: nat,
    hints: Seq<u8>,
)
    requires
        hp.table_bytes() <= len,
        hp.holds_hints(hints, cell_of, zeros(len)),
    ensures
        hints == zeros((hp.m * hp.entry_size) as nat),
{
    let m = hp.m as int;
    let size = hp.entry_size;
    let none = zeros((hp.m * hp.entry_size) as nat);
    let rows = hp.table_entries(zeros(len));
    lemma_entries_in_table(hp, zeros(len));
    assert forall|i: int| 0 <= i < rows.len() implies #[trigger] rows[i] == zeros(size as nat) by {
        lemma_entry_bounds(i, hp.entries() as int, size as int);
        assert(rows[i] =~= zeros(size as nat));
    }
    assert(0 <= m * size) by (nonlinear_arith)
        requires
            0 <= m,
    ;
    assert forall|s: int| 0 <= s < m implies #[trigger] entry_at(hints, size, s) == entry_at(
        none,
        size,
        s,
    ) by {
        lemma_entry_bounds(s, m, size as int);
        lemma_select_zeros(rows, hp.in_segment(cell_of, s), size as nat);
        assert(entry_at(none, size, s) =~= zeros(size as nat));
        assert(entry_at(hints, size, s) == hp.hint_of(cell_of, zeros(len), s));
    }
    lemma_entries_tell_bytes(hints, none, m, size);
}

/// The permutation gives the entries of a group the same cells whenever it is asked.
pub open spec fn cells_determined<
    D,
    G: Fn(&[u8; 16], u32) -> D,
    F: Fn(&D, usize) -> Vec<usize>,
    H: Fn(usize, usize, &D) -> Vec<usize>,
>(
    backend: Backend,
    prp_key: [u8; 16],
    protocol_group_id: u32,
    hp: HintParams,
    derive: &G,
    fast: &F,
    hoang: &H,
) -> bool {
    forall|c: Vec<usize>, d: Vec<usize>|
        #[trigger] cells_made(backend, prp_key, protocol_group_id, hp, derive, fast, hoang, c)
            && #[trigger] cells_made(
            backend,
            prp_key,
            protocol_group_id,
            hp,
            derive,
            fast,
            hoang,
            d,
        ) ==> c@ == d@
}

/// The hints that a group gets are linear in its table: with the permutation, the key, the group
/// and the parameters fixed, those for the combination of two tables are the combination of those
/// for each.
pub proof fn law_group_hints_linear<
    D,
    G: Fn(&[u8; 16], u32) -> D,
    F: Fn(&D, usize) -> Vec<usize>,
    H: Fn(usize, usize, &D) -> Vec<usize>,
>(
    backend: Backend,
    prp_key: [u8; 16],
    id: u32,
    hp: HintParams,
    derive: &G,
    fast: &F,
    hoang: &H,
    a: Seq<u8>,
    b: Seq<u8>,
    hints_a: Seq<u8>,
    hints_b: Seq<u8>,
    hints: Seq<u8>,
)
    requires
        cells_determined(backend, prp_key, id, hp, derive, fast, hoang),
        a.len() == b.len(),
        hp.table_bytes() <= a.len(),
        table_hinted(backend, prp_key, id, a, hp, derive, fast, hoang, hints_a),
        table_hinted(backend, prp_key, id, b, hp, derive, fast, hoang, hints_b),
        table_hinted(backend, prp_key, id, xor_seq(a, b), hp, derive, fast, hoang, hints),
    ensures
        hints == xor_seq(hints_a, hints_b),
{
    let c = choose|c: Vec<usize>| #[trigger]
        cells_made(backend, prp_key, id, hp, derive, fast, hoang, c) && hp.holds_hints(
            hints_a,
            c@,
            a,
        );
    law_hints_linear(hp, c@, a, b, hints_a, hints_b, hints);
}

/// The hints that a group gets for a table of zeros are zeros.
pub proof fn law_group_zero_hints<
    D,
    G: Fn(&[u8; 16], u32) -> D,
    F: Fn(&D, usize) -> Vec<usize>,
    H: Fn(usize, usize, &D) -> Vec<usize>,
>(
    backend: Backend,
    prp_key: [u8; 16],
    id: u32,
    hp: HintParams,
    derive: &G,
    fast: &F,
    hoang: &H,
    len: nat,
    hints: Seq<u8>,
)
    requires
        hp.table_bytes() <= len,
        table_hinted(backend, prp_key, id, zeros(len), hp, derive, fast, hoang, hints),
    ensures
        hints == zeros((hp.m * hp.entry_size) as nat),
{
    let c = choose|c: Vec<usize>| #[trigger]
        cells_made(backend, prp_key, id, hp, derive, fast, hoang, c) && hp.holds_hints(
            hints,
            c@,
            zeros(len),
        );
    law_zero_table_has_zero_hints(hp, c@, len, hints);
}

/// A hint takes in exactly the entries whose cells lie in its segment: byte `b` of the hint of
/// segment `s` is the exclusive or of byte `b` of every entry that takes part and has its cell
/// among the `t` cells from `s * t` on.
pub proof fn law_hint_bytes(
    hp: HintParams,
    cell_of: Seq<usize>,
    table: Seq<u8>,
    hints: Seq<u8>,
    s: int,
    b: int,
)
    requires
        hp.holds_hints(hints, cell_of, table),
        hp.t > 0,
        0 <= s < hp.m,
        0 <= b < hp.entry_size,
        forall|i: int|
            0 <= i < hp.bins_per_table && i < hp.padded_n ==> (#[trigger] (i * hp.entry_size))
                + hp.entry_size <= table.len(),
    ensures
        hints.len() == hp.m * hp.entry_size,
        0 <= s * hp.entry_size + b < hints.len(),
        hints[s * hp.entry_size + b] == Seq::new(
            if hp.bins_per_table < hp.padded_n {
                hp.bins_per_table as nat
            } else {
                hp.padded_n as nat
            },
            |i: int|
                if s * hp.t <= cell_of[i] < (s + 1) * hp.t {
                    table[i * hp.entry_size + b]
                } else {
                    0u8
                },
        ).fold_left(0u8, |acc: u8, x: u8| acc ^ x),
{
    let e = hp.entry_size;
    let rows = hp.table_entries(table);
    let pick = hp.in_segment(cell_of, s);
    let n = if hp.bins_per_table < hp.padded_n {
        hp.bins_per_table as nat
    } else {
        hp.padded_n as nat
    };
    lemma_entry_bounds(s, hp.m as int, e as int);
    assert forall|i: int| 0 <= i < n implies (#[trigger] rows[i]).len() == e && rows[i][b]
        == table[i * e + b] by {
        assert(i * e + e <= table.len());
        assert(0 <= i * e) by (nonlinear_arith)
            requires
                0 <= i,
        ;
    }
    law_selection_of_bytes(rows, pick, e as nat, b);
    assert(entry_at(hints, e, s) == hp.hint_of(cell_of, table, s));
    assert(entry_at(hints, e, s)[b] == hints[s * e + b]);
    let picked = Seq::new(
        rows.len(),
        |i: int|
            if pick(i) {
                rows[i][b]
            } else {
                0u8
            },
    );
    let taken = Seq::new(
        n,
        |i: int|
            if s * hp.t <= cell_of[i] < (s + 1) * hp.t {
                table[i * e + b]
            } else {
                0u8
            },
    );
    assert forall|i: int| 0 <= i < n implies picked[i] == taken[i] by {
        lemma_in_segment(cell_of[i] as int, hp.t as int, s);
        assert(rows[i][b] == table[i * e + b]);
    }
    assert(picked =~= taken);
}

/// A cell lies in the segment that its number divided by the size of segments gives.
proof fn lemma_in_segment(cell: int, t: int, s: int)
    requires
        0 <= cell,
        0 < t,
        0 <= s,
    ensures
        cell / t == s <==> s * t <= cell < (s + 1) * t,
{
    lemma_fundamental_div_mod(cell, t);
    lemma_mod_bound(cell, t);
    let q = cell / t;
    lemma_mul_is_commutative(t, q);
    assert((s + 1) * t == s * t + t) by (nonlinear_arith);
    if q < s {
        assert(q * t + t <= s * t) by (nonlinear_arith)
            requires
                q < s,
                0 < t,
        ;
    }
    if q > s {
        assert(s * t + t <= q * t) by (nonlinear_arith)
            requires
                s < q,
                0 < t,
        ;
    }
}

/// The hints of a group come of the cells that its permutation lays out under the key that is
/// derived for the group.
pub proof fn law_cells_of_group<
    D,
    G: Fn(&[u8; 16], u32) -> D,
    F: Fn(&D, usize) -> Vec<usize>,
    H: Fn(usize, usize, &D) -> Vec<usize>,
>(
    backend: Backend,
    prp_key: [u8; 16],
    id: u32,
    table: Seq<u8>,
    hp: HintParams,
    derive: &G,
    fast: &F,
    hoang: &H,
    hints: Seq<u8>,
) -> (r: (D, Vec<usize>))
    requires
        table_hinted(backend, prp_key, id, table, hp, derive, fast, hoang, hints),
    ensures
        call_ensures(*derive, (&prp_key, id), r.0),
        backend is FastPrp ==> call_ensures(*fast, (&r.0, hp.domain), r.1),
        backend is Hmr12 ==> call_ensures(*hoang, (hp.domain, hp.rounds, &r.0), r.1),
        hp.holds_hints(hints, r.1@, table),
{
    let cell_of = choose|cell_of: Vec<usize>| #[trigger]
        cells_made(backend, prp_key, id, hp, derive, fast, hoang, cell_of) && hp.holds_hints(
            hints,
            cell_of@,
            table,
        );
    let key = choose|key: D| #[trigger]
        call_ensures(*derive, (&prp_key, id), key) && (match backend {
            Backend::FastPrp => call_ensures(*fast, (&key, hp.domain), cell_of),
            Backend::Hmr12 => call_ensures(*hoang, (hp.domain, hp.rounds, &key), cell_of),
        });
    (key, cell_of)
}

/// The hints of a file: there are some for every group, made of the bytes of the group's table and
/// under the group's number, which counts through the groups of both levels.
pub proof fn law_hints_of_all_groups<
    D,
    G: Fn(&[u8; 16], u32) -> D,
    F: Fn(&D, usize) -> Vec<usize>,
    H: Fn(usize, usize, &D) -> Vec<usize>,
>(
    level: Level,
    all: LevelParams,
    backend: Backend,
    prp_key: [u8; 16],
    data: Seq<u8>,
    hp: HintParams,
    derive: &G,
    fast: &F,
    hoang: &H,
    hints: Seq<Vec<u8>>,
)
    requires
        all_hinted(level, all, backend, prp_key, data, hp, derive, fast, hoang, hints),
        hp.bins_per_table * hp.entry_size <= usize::MAX,
        all.index.k + hp.k <= u32::MAX,
    ensures
        hints.len() == hp.k,
        forall|g: int|
            0 <= g < hp.k ==> table_hinted(
                backend,
                prp_key,
                (if level is Index {
                    g
                } else {
                    all.index.k + g
                }) as u32,
                data.subrange(
                    hp.header_size + g * (hp.bins_per_table * hp.entry_size),
                    hp.header_size + g * (hp.bins_per_table * hp.entry_size) + hp.bins_per_table
                        * hp.entry_size,
                ),
                hp,
                derive,
                fast,
                hoang,
                (#[trigger] hints[g])@,
            ),
{
    assert(0 <= hp.bins_per_table * hp.entry_size) by (nonlinear_arith);
    assert forall|g: int| 0 <= g < hp.k implies table_hinted(
        backend,
        prp_key,
        (if level is Index {
            g
        } else {
            all.index.k + g
        }) as u32,
        data.subrange(
            hp.header_size + g * (hp.bins_per_table * hp.entry_size),
            hp.header_size + g * (hp.bins_per_table * hp.entry_size) + hp.bins_per_table
                * hp.entry_size,
        ),
        hp,
        derive,
        fast,
        hoang,
        (#[trigger] hints[g])@,
    ) by {
        let i = g as usize;
        assert(group_hinted(
            level,
            all,
            backend,
            prp_key,
            data,
            hp,
            i,
            derive,
            fast,
            hoang,
            hints[i as int]@,
        ));
    }
}

/// The number of a group counts the groups of the index level before those of the chunk level, both
/// modulo 2^32.
pub proof fn law_group_numbers(level: Level, all: LevelParams, group: usize)
    ensures
        level is Index ==> group_number(level, all, group) == group as int % 0x1_0000_0000,
        level is Chunk ==> group_number(level, all, group) == all.index.k as int % 0x1_0000_0000
            + group as int % 0x1_0000_0000,
{
    let k = all.index.k as u64;
    let g = group as u64;
    assert(k as u32 == k % 0x1_0000_0000) by (bit_vector);
    assert(g as u32 == g % 0x1_0000_0000) by (bit_vector);
}

/// The bytes of several rows together, and the sum of several sizes, take in every one of them;
/// their checksums are those of each.
pub proof fn law_sizes_add_up(rows: Seq<Vec<u8>>, sizes: Seq<usize>)
    ensures
        total_len(rows) == rows.fold_left(0int, |acc: int, r: Vec<u8>| acc + r@.len()),
        total_size(sizes) == sizes.fold_left(0int, |acc: int, n: usize| acc + n),
        checksums_of(rows).len() == rows.len(),
        forall|i: int| 0 <= i < rows.len() ==> #[trigger] checksums_of(rows)[i] == checksum(
            rows[i]@,
        ),
    decreases rows.len() + sizes.len(),
{
    if rows.len() > 0 {
        law_sizes_add_up(rows.drop_last(), sizes);
    } else if sizes.len() > 0 {
        law_sizes_add_up(rows, sizes.drop_last());
    }
}

/// The sizes that a trial of hint generation reports: one query asks for all entries of a segment
/// but one, in four bytes each, and is answered with as many entries; the padded entries allow so
/// many queries as whole segments are in them, and each group has its share of the hints.
pub proof fn law_summary_of_hints(hp: HintParams, run: HintRun, backend: Backend, ids: BackendIds)
    requires
        hp.k > 0,
        hp.t > 0,
        (hp.t - 1) * 4 <= usize::MAX,
        (hp.t - 1) * hp.entry_size <= usize::MAX,
    ensures
        ({
            let r = hint_summary(hp, run, backend, ids);
            &&& r.request_bytes == 4 * (hp.t - 1)
            &&& r.response_bytes == (hp.t - 1) * hp.entry_size
            &&& r.max_queries * hp.t <= hp.padded_n < (r.max_queries + 1) * hp.t
            &&& r.hints_per_group * hp.k <= run.hints_bytes < (r.hints_per_group + 1) * hp.k
            &&& r.checksum == run.checksum ^ ((match backend {
                Backend::Hmr12 => ids.hmr12,
                Backend::FastPrp => ids.fast_prp,
            }) as u64)
        }),
{
    let r = hint_summary(hp, run, backend, ids);
    lemma_in_segment(hp.padded_n as int, hp.t as int, r.max_queries as int);
    lemma_in_segment(run.hints_bytes as int, hp.k as int, r.hints_per_group as int);
    assert(0 <= (hp.t - 1) * hp.entry_size) by (nonlinear_arith)
        requires
            hp.t > 0,
    ;
}

/// What the parameters describe: all entries take part that there are cells for, and the tables
/// follow the header, each as large as its entries.
pub proof fn law_hint_params(hp: HintParams, data: Seq<u8>, group: int, file_bytes: usize)
    requires
        hp.bins_per_table * hp.entry_size <= usize::MAX,
    ensures
        hp.entries() <= hp.bins_per_table,
        hp.entries() <= hp.padded_n,
        hp.entries() == hp.bins_per_table || hp.entries() == hp.padded_n,
        hp.table_bytes() == hp.bins_per_table * hp.entry_size,
        hp.table(data, group) == data.subrange(
            hp.header_size + group * (hp.bins_per_table * hp.entry_size),
            hp.header_size + group * (hp.bins_per_table * hp.entry_size) + hp.bins_per_table
                * hp.entry_size,
        ),
        hp.layout(file_bytes) == (TableLayout {
            header_size: hp.header_size,
            k: hp.k,
            bins_per_table: hp.bins_per_table,
            result_size: hp.entry_size,
            table_byte_size: (hp.bins_per_table * hp.entry_size) as usize,
            file_bytes,
        }),
{
    assert(0 <= hp.bins_per_table * hp.entry_size) by (nonlinear_arith);
}

} // verus!
