//! The online phase of the hint protocol: the server's answers and their verification.
use crate::bytes::{bytes_equal, checksum_bytes, read_le32};
use crate::hints::{protocol_group_id, total_bytes, HintBundle, HintParams};
use crate::kinds::{Backend, BackendIds, Level, LevelParams};
use crate::layout::{bin_slice, entry_slice, table_slice};
use crate::tally::Verdict;
use crate::timing::MAX_NANOS;
use vstd::prelude::*;

#[allow(unused_imports)]
use crate::bytes::{byte_views, le32, xor_seq, zeros};
#[allow(unused_imports)]
use crate::hints::{group_number, lemma_total_len_prefix, tables_fit, total_len};
#[allow(unused_imports)]
use crate::layout::{bin_at, bin_start, entry_at, law_bin_is_table_entry, lemma_table_in_file};
#[allow(unused_imports)]
use crate::select::{
    law_select_one, law_selections_combine, law_selections_differing_in_one_row,
    lemma_select_agree, lemma_select_len, lemma_select_none, select_xor,
};
#[allow(unused_imports)]
use crate::tally::{
    law_no_mismatch_iff_equal, lemma_mismatches_bound, lemma_tally_push, mismatches, rows_checksum,
};

verus! {

/// The numbers that a request asks for: each four bytes of it are one, and what is left over at
/// its end is none.
pub open spec fn request_indices(request: Seq<u8>) -> Seq<nat> {
    Seq::new(request.len() / 4, |i: int| le32(request, 4 * i))
}

/// What a server answers for one number: the entry, or zeros where there is no such entry.
pub open spec fn response_row(
    table: Seq<u8>,
    bins_per_table: usize,
    entry_size: usize,
    idx: nat,
) -> Seq<u8> {
    if idx < bins_per_table {
        entry_at(table, entry_size, idx as int)
    } else {
        zeros(entry_size as nat)
    }
}

/// What a server answers to a request: one row per number, one after the other.
pub open spec fn response_to(
    indices: Seq<nat>,
    table: Seq<u8>,
    bins_per_table: usize,
    entry_size: usize,
) -> Seq<u8>
    decreases indices.len(),
{
    if indices.len() == 0 {
        Seq::empty()
    } else {
        response_to(indices.drop_last(), table, bins_per_table, entry_size) + response_row(
            table,
            bins_per_table,
            entry_size,
            indices.last(),
        )
    }
}

/// Answers a request over one table.
pub fn server_response(request: &[u8], table: &[u8], hp: &HintParams) -> (r: Vec<u8>)
    requires
        (request@.len() / 4) * hp.entry_size <= usize::MAX,
        forall|i: int|
            0 <= i < request_indices(request@).len() && #[trigger] request_indices(request@)[i]
                < hp.bins_per_table ==> request_indices(request@)[i] * hp.entry_size
                + hp.entry_size <= table@.len(),
    ensures
        r@ == response_to(
            request_indices(request@),
            table@,
            hp.bins_per_table,
            hp.entry_size,
        ),
        r@.len() == (request@.len() / 4) * hp.entry_size,
{
    let n: usize = request.len();
    let count: usize = n / 4;
    let e: usize = hp.entry_size;
    let ghost indices = request_indices(request@);
    let mut response: Vec<u8> = Vec::new();
    let mut i: usize = 0;
    while i < count
        invariant
            i <= count,
            n == request@.len(),
            count == n / 4,
            e == hp.entry_size,
            count * e <= usize::MAX,
            indices == request_indices(request@),
            forall|i: int|
                0 <= i < indices.len() && #[trigger] indices[i] < hp.bins_per_table ==> indices[i]
                    * hp.entry_size + hp.entry_size <= table@.len(),
            response@ == response_to(
                indices.take(i as int),
                table@,
                hp.bins_per_table,
                hp.entry_size,
            ),
            response@.len() == i * e,
        decreases count - i,
    {
        let idx: usize = read_le32(request, 4 * i);
        assert(idx == indices[i as int]);
        let ghost before = response@;
        assert(i * e + e == (i + 1) * e) by (nonlinear_arith);
        assert((i + 1) * e <= count * e) by (nonlinear_arith)
            requires
                i + 1 <= count,
        ;
        if idx < hp.bins_per_table {
            let entry = entry_slice(table, e, idx);
            response.extend_from_slice(entry);
            assert(response@ =~= before + entry_at(table@, e, idx as int));
        } else {
            let len: usize = response.len() + e;
            response.resize(len, 0u8);
            assert(response@ =~= before + zeros(e as nat)) by {
                assert(response@.subrange(0, before.len() as int) == before);
                assert forall|j: int| 0 <= j < before.len() implies response@[j] == before[j] by {
                    assert(response@.subrange(0, before.len() as int)[j] == before[j]);
                }
            }
        }
        assert(indices.take(i + 1).drop_last() =~= indices.take(i as int));
        i = i + 1;
    }
    assert(indices.take(count as int) =~= indices);
    response
}

/// The rows that a server answers to the numbers `indices`.
pub open spec fn response_rows(
    indices: Seq<nat>,
    table: Seq<u8>,
    bins_per_table: usize,
    entry_size: usize,
) -> Seq<Seq<u8>> {
    indices.map_values(|idx: nat| response_row(table, bins_per_table, entry_size, idx))
}

/// The table holds all entries of its number of bins.
pub open spec fn table_complete(table: Seq<u8>, bins_per_table: usize, entry_size: usize) -> bool {
    bins_per_table * entry_size <= table.len()
}

proof fn lemma_entry_in_table(table: Seq<u8>, bins_per_table: usize, entry_size: usize, i: int)
    requires
        table_complete(table, bins_per_table, entry_size),
        0 <= i < bins_per_table,
    ensures
        0 <= i * entry_size,
        i * entry_size + entry_size <= table.len(),
        entry_at(table, entry_size, i).len() == entry_size,
{
    let n = bins_per_table as int;
    let e = entry_size as int;
    assert(0 <= i * e && i * e + e <= n * e) by (nonlinear_arith)
        requires
            0 <= i < n,
            0 <= e,
    ;
}

/// Row `j` of an answer is the entry that the request's number `j` asks for, or zeros.
pub proof fn law_response_row(
    indices: Seq<nat>,
    table: Seq<u8>,
    bins_per_table: usize,
    entry_size: usize,
    j: int,
)
    requires
        table_complete(table, bins_per_table, entry_size),
        0 <= j < indices.len(),
    ensures
        response_to(indices, table, bins_per_table, entry_size).len() == indices.len()
            * entry_size,
        entry_at(response_to(indices, table, bins_per_table, entry_size), entry_size, j)
            == response_row(table, bins_per_table, entry_size, indices[j]),
    decreases indices.len(),
{
    let e = entry_size as int;
    let n = indices.len() as int;
    let rest = indices.drop_last();
    let r0 = response_to(rest, table, bins_per_table, entry_size);
    let r = response_to(indices, table, bins_per_table, entry_size);
    let last = response_row(table, bins_per_table, entry_size, indices.last());
    if indices.last() < bins_per_table {
        lemma_entry_in_table(table, bins_per_table, entry_size, indices.last() as int);
    }
    assert(last.len() == e);
    if n > 1 {
        let i = if j < n - 1 {
            j
        } else {
            0
        };
        law_response_row(rest, table, bins_per_table, entry_size, i);
    } else {
        assert((n - 1) * e == 0) by (nonlinear_arith)
            requires
                n == 1,
        ;
    }
    assert(r0.len() == (n - 1) * e);
    assert((n - 1) * e + e == n * e) by (nonlinear_arith);
    assert(0 <= j * e && j * e + e <= n * e) by (nonlinear_arith)
        requires
            0 <= j < n,
            0 <= e,
    ;
    if j < n - 1 {
        assert(j * e + e <= (n - 1) * e) by (nonlinear_arith)
            requires
                j < n - 1,
                0 <= e,
        ;
        assert(entry_at(r, entry_size, j) =~= entry_at(r0, entry_size, j));
    } else {
        assert(entry_at(r, entry_size, j) =~= last);
    }
}

/// Combining the answers to different numbers gives what combining the entries with these numbers
/// gives: numbers beyond the table add nothing.
pub proof fn law_answers_combine(
    indices: Seq<nat>,
    table: Seq<u8>,
    bins_per_table: usize,
    entry_size: usize,
)
    requires
        table_complete(table, bins_per_table, entry_size),
        indices.no_duplicates(),
    ensures
        select_xor(
            response_rows(indices, table, bins_per_table, entry_size),
            |i: int| true,
            entry_size as nat,
        ) == select_xor(
            Seq::new(bins_per_table as nat, |i: int| entry_at(table, entry_size, i)),
            |i: int| 0 <= i && indices.contains(i as nat),
            entry_size as nat,
        ),
    decreases indices.len(),
{
    let e = entry_size as nat;
    let answers = response_rows(indices, table, bins_per_table, entry_size);
    let rows = Seq::new(bins_per_table as nat, |i: int| entry_at(table, entry_size, i));
    let every = |i: int| true;
    let asked = |i: int| 0 <= i && indices.contains(i as nat);
    assert forall|i: int| 0 <= i < rows.len() implies (#[trigger] rows[i]).len() == e by {
        lemma_entry_in_table(table, bins_per_table, entry_size, i);
    }
    if indices.len() == 0 {
        lemma_select_none(rows, asked, e);
    } else {
        let rest = indices.drop_last();
        let x = indices.last();
        let asked0 = |i: int| 0 <= i && rest.contains(i as nat);
        assert(rest.no_duplicates());
        law_answers_combine(rest, table, bins_per_table, entry_size);
        assert(answers.drop_last() =~= response_rows(rest, table, bins_per_table, entry_size));
        assert(indices =~= rest.push(x));
        assert(!rest.contains(x)) by {
            if rest.contains(x) {
                let j = choose|j: int| 0 <= j < rest.len() && rest[j] == x;
                assert(indices[j] == indices[indices.len() - 1]);
            }
        }
        assert forall|i: int| 0 <= i < rows.len() implies #[trigger] asked(i) == (asked0(i) || i
            == x) by {
            if asked(i) {
                let j = choose|j: int| 0 <= j < indices.len() && indices[j] == i as nat;
                if j < rest.len() {
                    assert(rest[j] == i as nat);
                }
            }
            if asked0(i) {
                let j = choose|j: int| 0 <= j < rest.len() && rest[j] == i as nat;
                assert(indices[j] == i as nat);
            }
            if i == x {
                assert(indices[indices.len() - 1] == i as nat);
            }
        }
        if x < bins_per_table {
            let only = |i: int| i == x;
            law_select_one(rows, only, x as int, e);
            law_selections_combine(rows, asked0, only, e);
            let diff = |i: int| asked0(i) != only(i);
            assert forall|i: int| 0 <= i < rows.len() implies #[trigger] diff(i) == asked(i) by {
                assert(asked(i) == (asked0(i) || i == x));
                if i == x {
                    assert(!asked0(i));
                }
            }
            lemma_select_agree(rows, diff, asked, e);
        } else {
            assert forall|i: int| 0 <= i < rows.len() implies #[trigger] asked0(i)
                == asked(i) by {
                assert(asked(i) == (asked0(i) || i == x));
            }
            lemma_select_agree(rows, asked0, asked, e);
            let a = select_xor(rows, asked0, e);
            lemma_select_len(rows, asked0, e);
            assert forall|i: int| 0 <= i < e implies xor_seq(a, zeros(e))[i] == a[i] by {
                let v = a[i];
                assert(v ^ 0u8 == v) by (bit_vector);
            }
            assert(xor_seq(a, zeros(e)) =~= a);
        }
    }
}

/// A segment's hint, combined with the server's answers to a request for the other entries of the
/// segment, is the entry that the request leaves out.
pub proof fn law_hint_recovers_entry(
    hp: HintParams,
    cell_of: Seq<usize>,
    table: Seq<u8>,
    query: int,
    indices: Seq<nat>,
)
    requires
        hp.bins_per_table <= hp.padded_n,
        table_complete(table, hp.bins_per_table, hp.entry_size),
        0 <= query < hp.bins_per_table,
        indices.no_duplicates(),
        forall|i: int|
            0 <= i < hp.bins_per_table ==> (#[trigger] indices.contains(i as nat) <==> i != query
                && hp.segment_of(cell_of, i) == hp.segment_of(cell_of, query)),
    ensures
        xor_seq(
            hp.hint_of(cell_of, table, hp.segment_of(cell_of, query)),
            select_xor(
                response_rows(indices, table, hp.bins_per_table, hp.entry_size),
                |i: int| true,
                hp.entry_size as nat,
            ),
        ) == entry_at(table, hp.entry_size, query),
{
    let e = hp.entry_size as nat;
    let rows = hp.table_entries(table);
    assert(rows =~= Seq::new(
        hp.bins_per_table as nat,
        |i: int| entry_at(table, hp.entry_size, i),
    ));
    assert forall|i: int| 0 <= i < rows.len() implies (#[trigger] rows[i]).len() == e by {
        lemma_entry_in_table(table, hp.bins_per_table, hp.entry_size, i);
    }
    let segment = hp.segment_of(cell_of, query);
    let p = hp.in_segment(cell_of, segment);
    let q = |i: int| 0 <= i && indices.contains(i as nat);
    law_answers_combine(indices, table, hp.bins_per_table, hp.entry_size);
    assert forall|i: int| 0 <= i < rows.len() implies (#[trigger] p(i) != q(i) <==> i
        == query) by {
        assert(indices.contains(i as nat) <==> i != query && hp.segment_of(cell_of, i)
            == segment);
    }
    law_selections_differing_in_one_row(rows, p, q, query, e);
}

/// The rows of an answer of `count` rows.
pub open spec fn answer_rows(response: Seq<u8>, entry_size: usize, count: nat) -> Seq<Seq<u8>> {
    Seq::new(count, |j: int| entry_at(response, entry_size, j))
}

/// A client that combines the stored hint of the queried entry's segment with the rows of the
/// server's answer gets the entry, if its request asks for the other entries of the segment.
pub proof fn law_client_recovers_entry(
    hp: HintParams,
    cell_of: Seq<usize>,
    table: Seq<u8>,
    hints: Seq<u8>,
    query: int,
    request: Seq<u8>,
)
    requires
        hp.bins_per_table <= hp.padded_n,
        table_complete(table, hp.bins_per_table, hp.entry_size),
        hp.holds_hints(hints, cell_of, table),
        0 <= query < hp.bins_per_table,
        0 <= hp.segment_of(cell_of, query) < hp.m,
        request_indices(request).no_duplicates(),
        forall|i: int|
            0 <= i < hp.bins_per_table ==> (#[trigger] request_indices(request).contains(i as nat)
                <==> i != query && hp.segment_of(cell_of, i) == hp.segment_of(cell_of, query)),
    ensures
        xor_seq(
            entry_at(hints, hp.entry_size, hp.segment_of(cell_of, query)),
            select_xor(
                answer_rows(
                    response_to(
                        request_indices(request),
                        table,
                        hp.bins_per_table,
                        hp.entry_size,
                    ),
                    hp.entry_size,
                    request_indices(request).len(),
                ),
                |i: int| true,
                hp.entry_size as nat,
            ),
        ) == entry_at(table, hp.entry_size, query),
{
    let indices = request_indices(request);
    let response = response_to(indices, table, hp.bins_per_table, hp.entry_size);
    let rows = answer_rows(response, hp.entry_size, indices.len());
    let asked = response_rows(indices, table, hp.bins_per_table, hp.entry_size);
    assert forall|j: int| 0 <= j < rows.len() implies rows[j] == asked[j] by {
        law_response_row(indices, table, hp.bins_per_table, hp.entry_size, j);
    }
    assert(rows =~= asked);
    law_hint_recovers_entry(hp, cell_of, table, query, indices);
}

/// If every answer is the entry of the group's table that was queried, the verification counts no
/// failure.
pub proof fn law_recovered_entries_verify(
    hp: HintParams,
    data: Seq<u8>,
    file_bytes: usize,
    requests: Seq<RequestRecord>,
    answers: Seq<Vec<u8>>,
)
    requires
        hp.layout(file_bytes).wf(),
        data.len() == file_bytes,
        answers.len() == requests.len(),
        forall|i: int|
            0 <= i < requests.len() ==> (#[trigger] requests[i]).group < hp.k
                && requests[i].query < hp.bins_per_table,
        forall|i: int|
            0 <= i < requests.len() ==> (#[trigger] answers[i])@ == entry_at(
                hp.table(data, requests[i].group as int),
                hp.entry_size,
                requests[i].query as int,
            ),
    ensures
        mismatches(byte_views(answers), queried_entries(requests, data, hp)) == 0,
{
    let got = byte_views(answers);
    let want = queried_entries(requests, data, hp);
    assert forall|i: int| 0 <= i < got.len() implies got[i] == want[i] by {
        assert(answers[i]@ == got[i]);
        law_bin_is_table_entry(
            hp.layout(file_bytes),
            data,
            requests[i].group as int,
            requests[i].query as int,
        );
    }
    assert(got =~= want);
    law_no_mismatch_iff_equal(got, want);
}

/// What a client's state for one group is set up with.
#[derive(Clone, Copy, Debug, PartialEq, Eq, Structural)]
pub struct GroupSetup {
    pub bins_per_table: u32,
    pub entry_size: u32,
    pub t: u32,
    pub protocol_group_id: u32,
    pub backend_id: u8,
}

/// What the client's state for `group` is set up with.
pub open spec fn setup_of(
    level: Level,
    all: LevelParams,
    backend: Backend,
    ids: BackendIds,
    hp: HintParams,
    group: usize,
) -> GroupSetup {
    GroupSetup {
        bins_per_table: hp.bins_per_table as u32,
        entry_size: hp.entry_size as u32,
        t: hp.t as u32,
        protocol_group_id: group_number(level, all, group) as u32,
        backend_id: backend.spec_id(ids),
    }
}

/// Has `make` set up the client's state for each group, with the key and the group's hints.
pub fn build_groups<S, F: Fn(&GroupSetup, &[u8; 16], &Vec<u8>) -> S>(
    level: Level,
    all: &LevelParams,
    backend: Backend,
    ids: &BackendIds,
    hp: &HintParams,
    prp_key: &[u8; 16],
    hints: &Vec<Vec<u8>>,
    make: F,
) -> (r: Vec<S>)
    requires
        hp.k <= hints@.len(),
        forall|g: usize|
            g < hp.k ==> #[trigger] group_number(level, *all, g) <= u32::MAX,
        forall|g: usize|
            g < hp.k ==> #[trigger] call_requires(
                make,
                (&setup_of(level, *all, backend, *ids, *hp, g), prp_key, &hints@[g as int]),
            ),
    ensures
        r@.len() == hp.k,
        forall|g: usize|
            g < hp.k ==> #[trigger] call_ensures(
                make,
                (&setup_of(level, *all, backend, *ids, *hp, g), prp_key, &hints@[g as int]),
                r@[g as int],
            ),
{
    let mut groups: Vec<S> = Vec::new();
    let mut group: usize = 0;
    while group < hp.k
        invariant
            group <= hp.k,
            hp.k <= hints@.len(),
            groups@.len() == group,
            forall|g: usize|
                g < hp.k ==> #[trigger] group_number(level, *all, g) <= u32::MAX,
            forall|g: usize|
                g < hp.k ==> #[trigger] call_requires(
                    make,
                    (&setup_of(level, *all, backend, *ids, *hp, g), prp_key, &hints@[g as int]),
                ),
            forall|g: usize|
                g < group ==> #[trigger] call_ensures(
                    make,
                    (&setup_of(level, *all, backend, *ids, *hp, g), prp_key, &hints@[g as int]),
                    groups@[g as int],
                ),
        decreases hp.k - group,
    {
        assert(group_number(level, *all, group) <= u32::MAX);
        let setup = GroupSetup {
            bins_per_table: hp.bins_per_table as u32,
            entry_size: hp.entry_size as u32,
            t: hp.t as u32,
            protocol_group_id: protocol_group_id(level, all, group),
            backend_id: backend.id(ids),
        };
        assert(setup == setup_of(level, *all, backend, *ids, *hp, group));
        assert(call_requires(
            make,
            (&setup_of(level, *all, backend, *ids, *hp, group), prp_key, &hints@[group as int]),
        ));
        let state = make(&setup, prp_key, &hints[group]);
        groups.push(state);
        group = group + 1;
    }
    groups
}

/// One group's request of a trial.
pub struct RequestRecord {
    pub group: usize,
    pub query: usize,
    pub bytes: Vec<u8>,
}

/// Answers one group's request over the group's table.
pub fn answer_request(request: &RequestRecord, data: &[u8], hp: &HintParams) -> (r: Vec<u8>)
    requires
        tables_fit(*hp, data@),
        request.group < hp.k,
        (request.bytes@.len() / 4) * hp.entry_size <= usize::MAX,
    ensures
        r@ == response_to(
            request_indices(request.bytes@),
            hp.table(data@, request.group as int),
            hp.bins_per_table,
            hp.entry_size,
        ),
{
    let file_bytes: usize = data.len();
    let table_bytes: usize = hp.bins_per_table * hp.entry_size;
    proof {
        lemma_table_in_file(hp.layout(file_bytes), request.group as int);
    }
    let table = table_slice(data, hp.header_size, table_bytes, request.group);
    proof {
        let indices = request_indices(request.bytes@);
        assert forall|i: int|
            0 <= i < indices.len() && #[trigger] indices[i] < hp.bins_per_table implies indices[i]
            * hp.entry_size + hp.entry_size <= table@.len() by {
            lemma_entry_in_table(table@, hp.bins_per_table, hp.entry_size, indices[i] as int);
        }
    }
    server_response(request.bytes.as_slice(), table, hp)
}

/// The entries that `requests` query.
pub open spec fn queried_entries(
    requests: Seq<RequestRecord>,
    data: Seq<u8>,
    hp: HintParams,
) -> Seq<Seq<u8>> {
    requests.map_values(
        |r: RequestRecord|
            bin_at(
                data,
                hp.header_size,
                hp.table_bytes() as usize,
                hp.entry_size,
                r.group as int,
                r.query as int,
            ),
    )
}

/// Counts the answers that are not the entry that was queried.
pub fn verify_answers(
    requests: &Vec<RequestRecord>,
    answers: &Vec<Vec<u8>>,
    data: &[u8],
    hp: &HintParams,
) -> (r: Verdict)
    requires
        answers@.len() == requests@.len(),
        hp.table_bytes() <= usize::MAX,
        forall|i: int|
            0 <= i < requests@.len() ==> bin_start(
                hp.header_size,
                hp.table_bytes() as usize,
                hp.entry_size,
                (#[trigger] requests@[i]).group as int,
                requests@[i].query as int,
            ) + hp.entry_size <= data@.len(),
    ensures
        r.failures == mismatches(byte_views(answers@), queried_entries(requests@, data@, *hp)),
        r.checksum == rows_checksum(byte_views(answers@)),
{
    let n: usize = requests.len();
    let table_bytes: usize = hp.bins_per_table * hp.entry_size;
    let mut failures: usize = 0;
    let mut checksum: u64 = 0;
    let ghost got = byte_views(answers@);
    let ghost want = queried_entries(requests@, data@, *hp);
    assert(got.take(0) =~= Seq::<Seq<u8>>::empty());
    let mut i: usize = 0;
    while i < n
        invariant
            i <= n,
            n == requests@.len(),
            n == answers@.len(),
            hp.table_bytes() <= usize::MAX,
            table_bytes == hp.table_bytes(),
            got == byte_views(answers@),
            want == queried_entries(requests@, data@, *hp),
            failures == mismatches(got.take(i as int), want),
            checksum == rows_checksum(got.take(i as int)),
            forall|i: int|
                0 <= i < requests@.len() ==> bin_start(
                    hp.header_size,
                    hp.table_bytes() as usize,
                    hp.entry_size,
                    (#[trigger] requests@[i]).group as int,
                    requests@[i].query as int,
                ) + hp.entry_size <= data@.len(),
        decreases n - i,
    {
        proof {
            lemma_tally_push(got, want, i as int);
            lemma_mismatches_bound(got.take(i as int), want);
        }
        let request = &requests[i];
        let expected = bin_slice(
            data,
            hp.header_size,
            table_bytes,
            hp.entry_size,
            request.group,
            request.query,
        );
        checksum = checksum ^ checksum_bytes(answers[i].as_slice());
        if !bytes_equal(answers[i].as_slice(), expected) {
            failures = failures + 1;
        }
        i = i + 1;
    }
    assert(got.take(n as int) =~= got);
    Verdict { failures, checksum }
}

/// The number of bytes of all requests together.
pub open spec fn request_len(requests: Seq<RequestRecord>) -> nat {
    total_len(requests.map_values(|r: RequestRecord| r.bytes))
}

/// The number of bytes of all requests together.
pub fn request_bytes_total(requests: &Vec<RequestRecord>) -> (r: usize)
    requires
        request_len(requests@) <= usize::MAX,
    ensures
        r == request_len(requests@),
{
    let n: usize = requests.len();
    let ghost rows = requests@.map_values(|r: RequestRecord| r.bytes);
    let mut total: usize = 0;
    let mut i: usize = 0;
    while i < n
        invariant
            i <= n,
            n == requests@.len(),
            rows == requests@.map_values(|r: RequestRecord| r.bytes),
            total_len(rows) <= usize::MAX,
            total == total_len(rows.take(i as int)),
        decreases n - i,
    {
        proof {
            lemma_total_len_prefix(rows, i + 1);
            assert(rows.take(i + 1).drop_last() =~= rows.take(i as int));
        }
        total = total + requests[i].bytes.len();
        i = i + 1;
    }
    assert(rows.take(n as int) =~= rows);
    total
}

/// What a trial yields.
pub struct OnlineRun {
    pub state_setup: u128,
    pub request_build: u128,
    pub server_response: u128,
    pub response_process: u128,
    pub requests: Vec<RequestRecord>,
    pub responses: Vec<Vec<u8>>,
    pub verdict: Verdict,
}

/// What a measured online trial reports besides the times of its phases.
#[derive(Clone, Copy, Debug, PartialEq, Eq, Structural)]
pub struct OnlineSummary {
    pub hints_bytes_total: usize,
    pub hints_bytes_per_group: usize,
    pub request_bytes_total: usize,
    pub request_bytes_per_group: usize,
    pub response_bytes_total: usize,
    pub response_bytes_per_group: usize,
    pub total_online: u128,
    pub verified_queries: usize,
    pub checksum: u64,
}

/// The bytes of the hints, the requests and the responses can be counted, and the times of the
/// online phases can be added.
pub open spec fn online_sizes_fit(hp: HintParams, bundle: HintBundle, run: OnlineRun) -> bool {
    &&& hp.k > 0
    &&& total_len(bundle.hints@) <= usize::MAX
    &&& request_len(run.requests@) <= usize::MAX
    &&& total_len(run.responses@) <= usize::MAX
    &&& run.request_build + run.server_response + run.response_process <= MAX_NANOS
}

/// The sizes of one trial, the time of its online phases, and its checksum.
pub open spec fn online_summary(
    hp: HintParams,
    bundle: HintBundle,
    run: OnlineRun,
    backend: Backend,
    ids: BackendIds,
) -> OnlineSummary {
    OnlineSummary {
        hints_bytes_total: total_len(bundle.hints@) as usize,
        hints_bytes_per_group: (total_len(bundle.hints@) / hp.k as nat) as usize,
        request_bytes_total: request_len(run.requests@) as usize,
        request_bytes_per_group: (request_len(run.requests@) / hp.k as nat) as usize,
        response_bytes_total: total_len(run.responses@) as usize,
        response_bytes_per_group: (total_len(run.responses@) / hp.k as nat) as usize,
        total_online: (run.request_build + run.server_response + run.response_process) as u128,
        verified_queries: hp.k,
        checksum: bundle.checksum ^ run.verdict.checksum ^ (backend.spec_id(ids) as u64),
    }
}

/// The sizes of one trial, the time of its online phases, and its checksum.
pub fn summarize_online(
    hp: &HintParams,
    bundle: &HintBundle,
    run: &OnlineRun,
    backend: Backend,
    ids: &BackendIds,
) -> (r: OnlineSummary)
    requires
        online_sizes_fit(*hp, *bundle, *run),
    ensures
        r == online_summary(*hp, *bundle, *run, backend, *ids),
{
    let hints_bytes_total: usize = total_bytes(&bundle.hints);
    let request_bytes_total: usize = request_bytes_total(&run.requests);
    let response_bytes_total: usize = total_bytes(&run.responses);
    OnlineSummary {
        hints_bytes_total,
        hints_bytes_per_group: hints_bytes_total / hp.k,
        request_bytes_total,
        request_bytes_per_group: request_bytes_total / hp.k,
        response_bytes_total,
        response_bytes_per_group: response_bytes_total / hp.k,
        total_online: run.request_build + run.server_response + run.response_process,
        verified_queries: hp.k,
        checksum: bundle.checksum ^ run.verdict.checksum ^ (backend.id(ids) as u64),
    }
}

} // verus!
