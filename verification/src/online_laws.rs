//! What the online phase asks for, answers and counts, told without the functions that its
//! contracts are written with.
#[allow(unused_imports)]
use crate::byte_laws::{law_checksum_of_rows, law_mismatches_counted, law_numbers_are_read_back};
#[allow(unused_imports)]
use crate::bytes::{byte_views, checksum};
#[allow(unused_imports)]
use crate::hints::{total_len, HintBundle, HintParams};
use crate::kinds::{Backend, BackendIds, Level, LevelParams};
#[allow(unused_imports)]
use crate::online::{
    online_summary, queried_entries, request_indices, request_len, response_to, setup_of,
    GroupSetup, OnlineRun, RequestRecord,
};
#[allow(unused_imports)]
use crate::online_trial::{run_of, states_made, trial_requests};
#[allow(unused_imports)]
use crate::random::query_of;
#[allow(unused_imports)]
use crate::tally::mismatches;
#[allow(unused_imports)]
use vstd::arithmetic::div_mod::{lemma_fundamental_div_mod, lemma_mod_bound};
#[allow(unused_imports)]
use vstd::arithmetic::mul::lemma_mul_is_commutative;
use vstd::prelude::*;

verus! {

/// A request asks for the numbers that were written into it, each in four bytes with the least
/// significant first; up to three bytes behind the last of them ask for nothing.
pub proof fn law_request_asks_for_what_was_written(indices: Seq<u32>, request: Seq<u8>)
    requires
        request.len() / 4 == indices.len(),
        forall|i: int|
            0 <= i < indices.len() ==> {
                let n = #[trigger] indices[i];
                &&& request[4 * i] == n % 0x100
                &&& request[4 * i + 1] == n / 0x100 % 0x100
                &&& request[4 * i + 2] == n / 0x1_0000 % 0x100
                &&& request[4 * i + 3] == n / 0x100_0000
            },
    ensures
        request_indices(request).len() == indices.len(),
        forall|i: int| 0 <= i < indices.len() ==> #[trigger] request_indices(request)[i]
            == indices[i],
{
    assert forall|i: int| 0 <= i < indices.len() implies #[trigger] request_indices(request)[i]
        == indices[i] by {
        law_numbers_are_read_back(request, 4 * i, 0, indices[i]);
    }
}

/// What a request asks for in general: one number in each four bytes.
pub proof fn law_request_numbers(request: Seq<u8>)
    ensures
        request_indices(request).len() == request.len() / 4,
        forall|i: int|
            0 <= i < request.len() / 4 ==> #[trigger] request_indices(request)[i] == request[4 * i]
                + 0x100 * request[4 * i + 1] + 0x1_0000 * request[4 * i + 2] + 0x100_0000
                * request[4 * i + 3],
{
}

/// The response to a request holds one row for each number that was written into it, and row `j`
/// is the entry with the number `indices[j]`, or zeros where there is no such entry.
pub proof fn law_response_to_written_request(
    indices: Seq<u32>,
    request: Seq<u8>,
    table: Seq<u8>,
    bins_per_table: usize,
    entry_size: usize,
    j: int,
    b: int,
)
    requires
        request.len() / 4 == indices.len(),
        forall|i: int|
            0 <= i < indices.len() ==> {
                let n = #[trigger] indices[i];
                &&& request[4 * i] == n % 0x100
                &&& request[4 * i + 1] == n / 0x100 % 0x100
                &&& request[4 * i + 2] == n / 0x1_0000 % 0x100
                &&& request[4 * i + 3] == n / 0x100_0000
            },
        forall|i: int|
            0 <= i < indices.len() && #[trigger] indices[i] < bins_per_table ==> indices[i]
                * entry_size + entry_size <= table.len(),
        0 <= j < indices.len(),
        0 <= b < entry_size,
    ensures
        ({
            let response = response_to(
                request_indices(request),
                table,
                bins_per_table,
                entry_size,
            );
            &&& response.len() == indices.len() * entry_size
            &&& 0 <= j * entry_size + b < response.len()
            &&& response[j * entry_size + b] == if indices[j] < bins_per_table {
                table[indices[j] * entry_size + b]
            } else {
                0u8
            }
        }),
{
    law_request_asks_for_what_was_written(indices, request);
    let asked = request_indices(request);
    assert forall|i: int|
        0 <= i < asked.len() && #[trigger] asked[i] < bins_per_table implies asked[i] * entry_size
        + entry_size <= table.len() by {
        assert(indices[i] < bins_per_table);
    }
    lemma_response_byte(asked, table, bins_per_table, entry_size, j, b);
    assert(asked[j] == indices[j]);
}

proof fn lemma_response_byte(
    indices: Seq<nat>,
    table: Seq<u8>,
    bins_per_table: usize,
    entry_size: usize,
    j: int,
    b: int,
)
    requires
        forall|i: int|
            0 <= i < indices.len() && #[trigger] indices[i] < bins_per_table ==> indices[i]
                * entry_size + entry_size <= table.len(),
        0 <= j < indices.len(),
        0 <= b < entry_size,
    ensures
        ({
            let response = response_to(indices, table, bins_per_table, entry_size);
            &&& response.len() == indices.len() * entry_size
            &&& 0 <= j * entry_size + b < response.len()
            &&& response[j * entry_size + b] == if indices[j] < bins_per_table {
                table[indices[j] * entry_size + b]
            } else {
                0u8
            }
        }),
    decreases indices.len(),
{
    let e = entry_size as int;
    let n = indices.len() as int;
    let rest = indices.drop_last();
    let idx = indices[n - 1];
    let before = response_to(rest, table, bins_per_table, entry_size);
    assert(0 <= idx * e) by (nonlinear_arith)
        requires
            0 <= e,
    ;
    assert((n - 1) * e + e == n * e) by (nonlinear_arith);
    assert(0 <= j * e && j * e + e <= n * e) by (nonlinear_arith)
        requires
            0 <= j < n,
            0 <= e,
    ;
    assert forall|i: int| 0 <= i < rest.len() && #[trigger] rest[i] < bins_per_table implies rest[i]
        * entry_size + entry_size <= table.len() by {
        assert(indices[i] == rest[i]);
    }
    if n > 1 {
        let i = if j < n - 1 {
            j
        } else {
            0
        };
        lemma_response_byte(rest, table, bins_per_table, entry_size, i, b);
    } else {
        assert((n - 1) * e == 0) by (nonlinear_arith)
            requires
                n == 1,
        ;
    }
    assert(before.len() == (n - 1) * e);
    if j < n - 1 {
        assert(j * e + e <= (n - 1) * e) by (nonlinear_arith)
            requires
                j < n - 1,
                0 <= e,
        ;
    }
}

/// The failures of an online trial are the requests whose answer is not the entry that was queried.
pub proof fn law_failures_are_wrong_entries(
    requests: Seq<RequestRecord>,
    answers: Seq<Vec<u8>>,
    data: Seq<u8>,
    hp: HintParams,
)
    requires
        answers.len() == requests.len(),
        hp.bins_per_table * hp.entry_size <= usize::MAX,
    ensures
        mismatches(byte_views(answers), queried_entries(requests, data, hp)) == Set::<int>::new(
            |i: int|
                0 <= i < requests.len() && {
                    let start = hp.header_size + requests[i].group * (hp.bins_per_table
                        * hp.entry_size) + requests[i].query * hp.entry_size;
                    answers[i]@ != data.subrange(start, start + hp.entry_size)
                },
        ).len(),
{
    let got = byte_views(answers);
    let want = queried_entries(requests, data, hp);
    assert(0 <= hp.bins_per_table * hp.entry_size) by (nonlinear_arith);
    law_mismatches_counted(got, want);
    assert(Set::<int>::new(|i: int| 0 <= i < got.len() && got[i] != want[i]) =~= Set::<int>::new(
        |i: int|
            0 <= i < requests.len() && {
                let start = hp.header_size + requests[i].group * (hp.bins_per_table
                    * hp.entry_size) + requests[i].query * hp.entry_size;
                answers[i]@ != data.subrange(start, start + hp.entry_size)
            },
    ));
}

/// An online trial: every group has one request, for the entry that it queries, built by its own
/// state; every request has its response over the table of its group, and every response its
/// answer; the failures are the answers that are not the entry that was queried, and the checksum
/// takes in all answers.
pub proof fn law_online_trial<
    S,
    B: Fn(S, u32) -> (S, Vec<u8>),
    A: Fn(S, &Vec<u8>) -> Vec<u8>,
>(
    trial_index: usize,
    backend_id: u8,
    hp: HintParams,
    data: Seq<u8>,
    build: B,
    process: A,
    made: Seq<S>,
    built: Seq<S>,
    answers: Seq<Vec<u8>>,
    run: OnlineRun,
)
    requires
        hp.bins_per_table * hp.entry_size <= usize::MAX,
        trial_requests(trial_index, hp, backend_id, run.requests@),
        run_of(hp, data, build, process, made, built, answers, run),
    ensures
        run.requests@.len() == hp.k,
        run.responses@.len() == hp.k,
        answers.len() == hp.k,
        forall|g: int|
            0 <= g < hp.k ==> {
                let r = #[trigger] run.requests@[g];
                let start = hp.header_size + g * (hp.bins_per_table * hp.entry_size);
                &&& r.group == g
                &&& r.query == query_of(
                    trial_index,
                    g as usize,
                    hp.bins_per_table,
                    hp.entry_size,
                    backend_id,
                )
                &&& call_ensures(build, (made[g], r.query as u32), (built[g], r.bytes))
                &&& run.responses@[g]@ == response_to(
                    request_indices(r.bytes@),
                    data.subrange(start, start + hp.bins_per_table * hp.entry_size),
                    hp.bins_per_table,
                    hp.entry_size,
                )
                &&& call_ensures(process, (built[g], &run.responses@[g]), answers[g])
            },
        run.verdict.failures == Set::<int>::new(
            |g: int|
                0 <= g < hp.k && {
                    let start = hp.header_size + g * (hp.bins_per_table * hp.entry_size)
                        + query_of(
                        trial_index,
                        g as usize,
                        hp.bins_per_table,
                        hp.entry_size,
                        backend_id,
                    ) * hp.entry_size;
                    answers[g]@ != data.subrange(start, start + hp.entry_size)
                },
        ).len(),
        run.verdict.checksum == byte_views(answers).fold_left(
            0u64,
            |acc: u64, row: Seq<u8>| acc ^ checksum(row),
        ),
{
    assert(0 <= hp.bins_per_table * hp.entry_size) by (nonlinear_arith);
    let requests = run.requests@;
    assert forall|g: int| 0 <= g < hp.k implies (#[trigger] requests[g]).group == g
        && requests[g].query == query_of(
        trial_index,
        g as usize,
        hp.bins_per_table,
        hp.entry_size,
        backend_id,
    ) by {
        let i = g as usize;
        assert(requests[i as int].group == i);
    }
    assert forall|g: int| 0 <= g < hp.k implies {
        let r = #[trigger] run.requests@[g];
        let start = hp.header_size + g * (hp.bins_per_table * hp.entry_size);
        &&& call_ensures(build, (made[g], r.query as u32), (built[g], r.bytes))
        &&& run.responses@[g]@ == response_to(
            request_indices(r.bytes@),
            data.subrange(start, start + hp.bins_per_table * hp.entry_size),
            hp.bins_per_table,
            hp.entry_size,
        )
        &&& call_ensures(process, (built[g], &run.responses@[g]), answers[g])
    } by {
        assert(requests[g].group == g);
        assert(call_ensures(
            build,
            (made[g], requests[g].query as u32),
            (built[g], requests[g].bytes),
        ));
        assert(call_ensures(process, (built[g], &run.responses@[g]), answers[g]));
        assert(run.responses@[g]@ == response_to(
            request_indices(requests[g].bytes@),
            hp.table(data, requests[g].group as int),
            hp.bins_per_table,
            hp.entry_size,
        ));
    }
    law_failures_are_wrong_entries(requests, answers, data, hp);
    law_checksum_of_rows(byte_views(answers));
    assert(Set::<int>::new(
        |i: int|
            0 <= i < requests.len() && {
                let start = hp.header_size + requests[i].group * (hp.bins_per_table
                    * hp.entry_size) + requests[i].query * hp.entry_size;
                answers[i]@ != data.subrange(start, start + hp.entry_size)
            },
    ) =~= Set::<int>::new(
        |g: int|
            0 <= g < hp.k && {
                let start = hp.header_size + g * (hp.bins_per_table * hp.entry_size) + query_of(
                    trial_index,
                    g as usize,
                    hp.bins_per_table,
                    hp.entry_size,
                    backend_id,
                ) * hp.entry_size;
                answers[g]@ != data.subrange(start, start + hp.entry_size)
            },
    ));
}

/// Every group's state is set up with the parameters of the table, the group's number and its own
/// hints.
pub proof fn law_states_of_groups<S, M: Fn(&GroupSetup, &[u8; 16], &Vec<u8>) -> S>(
    level: Level,
    all: LevelParams,
    backend: Backend,
    ids: BackendIds,
    hp: HintParams,
    prp_key: [u8; 16],
    hints: Seq<Vec<u8>>,
    make: M,
    made: Seq<S>,
    g: int,
)
    requires
        states_made(level, all, backend, ids, hp, prp_key, hints, make, made),
        0 <= g < hp.k,
        all.index.k + hp.k <= u32::MAX,
    ensures
        made.len() == hp.k,
        call_ensures(
            make,
            (
                &GroupSetup {
                    bins_per_table: hp.bins_per_table as u32,
                    entry_size: hp.entry_size as u32,
                    t: hp.t as u32,
                    protocol_group_id: (if level is Index {
                        g
                    } else {
                        all.index.k + g
                    }) as u32,
                    backend_id: (match backend {
                        Backend::Hmr12 => ids.hmr12,
                        Backend::FastPrp => ids.fast_prp,
                    }),
                },
                &prp_key,
                &hints[g],
            ),
            made[g],
        ),
{
    let i = g as usize;
    assert(call_ensures(
        make,
        (&setup_of(level, all, backend, ids, hp, i), &prp_key, &hints[i as int]),
        made[i as int],
    ));
    assert(setup_of(level, all, backend, ids, hp, i).protocol_group_id == (if level is Index {
        g
    } else {
        all.index.k + g
    }) as u32);
}

/// The bytes of several requests together take in those of every one of them.
pub proof fn law_request_bytes_add_up(requests: Seq<RequestRecord>)
    ensures
        request_len(requests) == requests.fold_left(
            0int,
            |acc: int, r: RequestRecord| acc + r.bytes@.len(),
        ),
    decreases requests.len(),
{
    let rows = requests.map_values(|r: RequestRecord| r.bytes);
    if requests.len() > 0 {
        let rest = requests.drop_last();
        law_request_bytes_add_up(rest);
        assert(rows.drop_last() =~= rest.map_values(|r: RequestRecord| r.bytes));
    }
}

/// The sizes and times that an online trial reports: the bytes of all hints, requests and
/// responses, and the share of each group; setting up the states is no part of the online time.
pub proof fn law_summary_of_online_trial(
    hp: HintParams,
    bundle: HintBundle,
    run: OnlineRun,
    backend: Backend,
    ids: BackendIds,
)
    requires
        hp.k > 0,
        total_len(bundle.hints@) <= usize::MAX,
        request_len(run.requests@) <= usize::MAX,
        total_len(run.responses@) <= usize::MAX,
        run.request_build + run.server_response + run.response_process <= u128::MAX,
    ensures
        ({
            let r = online_summary(hp, bundle, run, backend, ids);
            let k = hp.k as int;
            &&& r.hints_bytes_total == total_len(bundle.hints@)
            &&& r.request_bytes_total == request_len(run.requests@)
            &&& r.response_bytes_total == total_len(run.responses@)
            &&& r.hints_bytes_per_group * k <= r.hints_bytes_total < r.hints_bytes_per_group * k
                + k
            &&& r.request_bytes_per_group * k <= r.request_bytes_total
                < r.request_bytes_per_group * k + k
            &&& r.response_bytes_per_group * k <= r.response_bytes_total
                < r.response_bytes_per_group * k + k
            &&& r.total_online == run.request_build + run.server_response + run.response_process
            &&& r.verified_queries == hp.k
            &&& r.checksum == bundle.checksum ^ run.verdict.checksum ^ ((match backend {
                Backend::Hmr12 => ids.hmr12,
                Backend::FastPrp => ids.fast_prp,
            }) as u64)
        }),
{
    let k = hp.k as int;
    lemma_share(total_len(bundle.hints@) as int, k);
    lemma_share(request_len(run.requests@) as int, k);
    lemma_share(total_len(run.responses@) as int, k);
}

proof fn lemma_share(x: int, k: int)
    requires
        0 <= x,
        0 < k,
    ensures
        0 <= x / k <= x,
        (x / k) * k <= x < (x / k) * k + k,
{
    lemma_fundamental_div_mod(x, k);
    lemma_mod_bound(x, k);
    lemma_mul_is_commutative(k, x / k);
    assert(0 <= x / k <= x) by (nonlinear_arith)
        requires
            (x / k) * k <= x < (x / k) * k + k,
            0 <= x,
            0 < k,
    ;
}

} // verus!
