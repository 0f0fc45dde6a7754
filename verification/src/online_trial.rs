//! One online trial of the hint protocol, from the set-up of the client to the verdict.
use crate::hints::HintParams;
use crate::kinds::{Backend, BackendIds, Level, LevelParams};
use crate::online::{
    answer_request, build_groups, verify_answers, GroupSetup, OnlineRun, RequestRecord,
};
use crate::parallel::par_map;
use crate::random::query_for_trial;
use crate::tally::Verdict;
use crate::timing::{elapsed_time, Mark, Phase};
use vstd::prelude::*;

#[allow(unused_imports)]
use crate::bytes::{byte_views, xor_seq};
#[allow(unused_imports)]
use crate::hints::{group_number, tables_fit};
#[allow(unused_imports)]
use crate::layout::{bin_start, entry_at, law_layout_covers, lemma_table_in_file};
#[allow(unused_imports)]
use crate::online::{
    answer_rows, law_client_recovers_entry, law_recovered_entries_verify, queried_entries,
    request_indices, response_to, setup_of,
};
#[allow(unused_imports)]
use crate::random::query_of;
#[allow(unused_imports)]
use crate::select::select_xor;
#[allow(unused_imports)]
use crate::tally::{mismatches, rows_checksum};
#[allow(unused_imports)]
use crate::timing::{clock_ready, measured_by};

verus! {

/// `requests` holds one request per group, for the entry that the group queries in the trial.
pub open spec fn trial_requests(
    trial_index: usize,
    hp: HintParams,
    backend_id: u8,
    requests: Seq<RequestRecord>,
) -> bool {
    &&& requests.len() == hp.k
    &&& forall|g: usize|
        g < hp.k ==> (#[trigger] requests[g as int]).group == g && requests[g as int].query
            == query_of(trial_index, g, hp.bins_per_table, hp.entry_size, backend_id)
}

/// The client's states `made` for all groups were set up by `make`.
pub open spec fn states_made<S, M: Fn(&GroupSetup, &[u8; 16], &Vec<u8>) -> S>(
    level: Level,
    all: LevelParams,
    backend: Backend,
    ids: BackendIds,
    hp: HintParams,
    prp_key: [u8; 16],
    hints: Seq<Vec<u8>>,
    make: M,
    made: Seq<S>,
) -> bool {
    &&& made.len() == hp.k
    &&& forall|g: usize|
        g < hp.k ==> #[trigger] call_ensures(
            make,
            (&setup_of(level, all, backend, ids, hp, g), &prp_key, &hints[g as int]),
            made[g as int],
        )
}

/// Each of the states `made` built its request by `build`, and became the one in `built`.
pub open spec fn requests_built<S, B: Fn(S, u32) -> (S, Vec<u8>)>(
    build: B,
    made: Seq<S>,
    requests: Seq<RequestRecord>,
    built: Seq<S>,
) -> bool {
    &&& built.len() == requests.len()
    &&& forall|g: int|
        0 <= g < requests.len() ==> #[trigger] call_ensures(
            build,
            (made[g], requests[g].query as u32),
            (built[g], requests[g].bytes),
        )
}

/// Each of the states `built` made its answer of the server's response by `process`.
pub open spec fn answers_made<S, A: Fn(S, &Vec<u8>) -> Vec<u8>>(
    process: A,
    built: Seq<S>,
    responses: Seq<Vec<u8>>,
    answers: Seq<Vec<u8>>,
) -> bool {
    &&& answers.len() == built.len()
    &&& forall|g: int|
        0 <= g < built.len() ==> #[trigger] call_ensures(
            process,
            (built[g], &responses[g]),
            answers[g],
        )
}

/// Has every state build the request for the entry that its group queries.
fn build_requests<S, B: Fn(S, u32) -> (S, Vec<u8>)>(
    groups: Vec<S>,
    trial_index: usize,
    hp: &HintParams,
    backend: Backend,
    ids: &BackendIds,
    build: &B,
) -> (r: (Vec<S>, Vec<RequestRecord>))
    requires
        groups@.len() == hp.k,
        hp.k > 0 ==> hp.bins_per_table > 0,
        forall|s: S, query: u32| #[trigger] call_requires(*build, (s, query)),
    ensures
        trial_requests(trial_index, *hp, backend.spec_id(*ids), r.1@),
        requests_built(*build, groups@, r.1@, r.0@),
{
    let mut built: Vec<S> = Vec::new();
    let mut requests: Vec<RequestRecord> = Vec::new();
    let ghost all = groups@;
    let mut group: usize = 0;
    for state in it: groups
        invariant
            it.seq() == all,
            all.len() == hp.k,
            group == it.index(),
            hp.k > 0 ==> hp.bins_per_table > 0,
            forall|s: S, query: u32| #[trigger] call_requires(*build, (s, query)),
            requests@.len() == group,
            forall|g: usize|
                g < group ==> (#[trigger] requests@[g as int]).group == g
                    && requests@[g as int].query == query_of(
                    trial_index,
                    g,
                    hp.bins_per_table,
                    hp.entry_size,
                    backend.spec_id(*ids),
                ),
            requests_built(*build, all, requests@, built@),
    {
        let query: usize = query_for_trial(
            trial_index,
            group,
            hp.bins_per_table,
            hp.entry_size,
            backend,
            ids,
        );
        let ghost before = built@;
        let ghost earlier = requests@;
        let (next, bytes) = build(state, query as u32);
        built.push(next);
        requests.push(RequestRecord { group, query, bytes });
        assert forall|g: int| 0 <= g < requests@.len() implies #[trigger] call_ensures(
            *build,
            (all[g], requests@[g].query as u32),
            (built@[g], requests@[g].bytes),
        ) by {
            if g < group {
                assert(requests@[g] == earlier[g] && built@[g] == before[g]);
                assert(call_ensures(
                    *build,
                    (all[g], earlier[g].query as u32),
                    (before[g], earlier[g].bytes),
                ));
            }
        }
        group = group + 1;
    }
    (built, requests)
}

/// Has every state make its answer of the server's response.
fn process_responses<S, A: Fn(S, &Vec<u8>) -> Vec<u8>>(
    built: Vec<S>,
    responses: &Vec<Vec<u8>>,
    process: &A,
) -> (r: Vec<Vec<u8>>)
    requires
        built@.len() <= responses@.len(),
        forall|s: S, response: Vec<u8>| #[trigger] call_requires(*process, (s, &response)),
    ensures
        answers_made(*process, built@, responses@, r@),
{
    let mut answers: Vec<Vec<u8>> = Vec::new();
    let ghost all = built@;
    let n: usize = responses.len();
    let mut i: usize = 0;
    for state in it: built
        invariant
            it.seq() == all,
            n == responses@.len(),
            all.len() <= n,
            i == it.index(),
            forall|s: S, response: Vec<u8>| #[trigger] call_requires(*process, (s, &response)),
            answers@.len() == i,
            forall|g: int|
                0 <= g < i ==> #[trigger] call_ensures(
                    *process,
                    (all[g], &responses@[g]),
                    answers@[g],
                ),
    {
        let ghost before = answers@;
        let answer = process(state, &responses[i]);
        answers.push(answer);
        assert forall|g: int| 0 <= g < i + 1 implies #[trigger] call_ensures(
            *process,
            (all[g], &responses@[g]),
            answers@[g],
        ) by {
            if g < i {
                assert(answers@[g] == before[g]);
                assert(call_ensures(*process, (all[g], &responses@[g]), before[g]));
            }
        }
        i = i + 1;
    }
    answers
}

/// `responses` holds the server's answer to each of `requests`, over the table of its group.
pub open spec fn responses_made(
    requests: Seq<RequestRecord>,
    data: Seq<u8>,
    hp: HintParams,
    responses: Seq<Vec<u8>>,
) -> bool {
    &&& responses.len() == requests.len()
    &&& forall|i: int|
        0 <= i < requests.len() ==> (#[trigger] responses[i])@ == response_to(
            request_indices(requests[i].bytes@),
            hp.table(data, requests[i].group as int),
            hp.bins_per_table,
            hp.entry_size,
        )
}

/// Answers all requests, in parallel.
fn answer_requests(requests: &Vec<RequestRecord>, data: &[u8], hp: &HintParams) -> (r: Vec<Vec<u8>>)
    requires
        tables_fit(*hp, data@),
        forall|i: int|
            0 <= i < requests@.len() ==> (#[trigger] requests@[i]).group < hp.k && (
            requests@[i].bytes@.len() / 4) * hp.entry_size <= usize::MAX,
    ensures
        responses_made(requests@, data@, *hp, r@),
{
    let n: usize = requests.len();
    let work = |i: usize| -> (response: Vec<u8>)
        requires
            i < requests@.len(),
            tables_fit(*hp, data@),
            requests@[i as int].group < hp.k,
            (requests@[i as int].bytes@.len() / 4) * hp.entry_size <= usize::MAX,
        ensures
            response@ == response_to(
                request_indices(requests@[i as int].bytes@),
                hp.table(data@, requests@[i as int].group as int),
                hp.bins_per_table,
                hp.entry_size,
            ),
        { answer_request(&requests[i], data, hp) };
    let responses: Vec<Vec<u8>> = par_map(n, work);
    assert forall|i: int| 0 <= i < requests@.len() implies (#[trigger] responses@[i])@
        == response_to(
        request_indices(requests@[i].bytes@),
        hp.table(data@, requests@[i].group as int),
        hp.bins_per_table,
        hp.entry_size,
    ) by {
        let j = i as usize;
        assert(call_ensures(work, (j,), responses@[j as int]));
    }
    responses
}

/// `run` comes of a trial whose client states were `made` and `built`, and whose answers were
/// `answers`.
pub open spec fn run_of<
    S,
    B: Fn(S, u32) -> (S, Vec<u8>),
    A: Fn(S, &Vec<u8>) -> Vec<u8>,
>(
    hp: HintParams,
    data: Seq<u8>,
    build: B,
    process: A,
    made: Seq<S>,
    built: Seq<S>,
    answers: Seq<Vec<u8>>,
    run: OnlineRun,
) -> bool {
    &&& requests_built(build, made, run.requests@, built)
    &&& responses_made(run.requests@, data, hp, run.responses@)
    &&& answers_made(process, built, run.responses@, answers)
    &&& run.verdict.failures == mismatches(
        byte_views(answers),
        queried_entries(run.requests@, data, hp),
    )
    &&& run.verdict.checksum == rows_checksum(byte_views(answers))
}

/// Runs one trial: has `make` set up the client's state for each group, `build` build the requests
/// for the entries that the groups query, answers them as the server does, has `process` make each
/// group's answer of the response, and verifies the answers. `clock` tells the time.
pub fn run_trial<
    S,
    M: Fn(&GroupSetup, &[u8; 16], &Vec<u8>) -> S,
    B: Fn(S, u32) -> (S, Vec<u8>),
    A: Fn(S, &Vec<u8>) -> Vec<u8>,
    C: Fn(Mark) -> u128,
>(
    level: Level,
    all: &LevelParams,
    backend: Backend,
    ids: &BackendIds,
    hp: &HintParams,
    prp_key: &[u8; 16],
    hints: &Vec<Vec<u8>>,
    trial_index: usize,
    data: &[u8],
    make: M,
    build: B,
    process: A,
    clock: C,
) -> (r: OnlineRun)
    requires
        tables_fit(*hp, data@),
        hp.k > 0 ==> hp.bins_per_table > 0,
        hp.k <= hints@.len(),
        forall|g: usize| g < hp.k ==> #[trigger] group_number(level, *all, g) <= u32::MAX,
        forall|g: usize|
            g < hp.k ==> #[trigger] call_requires(
                make,
                (&setup_of(level, *all, backend, *ids, *hp, g), prp_key, &hints@[g as int]),
            ),
        forall|s: S, query: u32| #[trigger] call_requires(build, (s, query)),
        forall|s: S, query: u32, next: S, bytes: Vec<u8>| #[trigger]
            call_ensures(build, (s, query), (next, bytes)) ==> (bytes@.len() / 4) * hp.entry_size
                <= usize::MAX,
        forall|s: S, response: Vec<u8>| #[trigger] call_requires(process, (s, &response)),
        clock_ready(clock),
    ensures
        trial_requests(trial_index, *hp, backend.spec_id(*ids), r.requests@),
        exists|made: Seq<S>, built: Seq<S>, answers: Seq<Vec<u8>>|
            states_made(level, *all, backend, *ids, *hp, *prp_key, hints@, make, made)
                && #[trigger] run_of(
                *hp,
                data@,
                build,
                process,
                made,
                built,
                answers,
                r,
            ),
        measured_by(clock, Phase::Setup, r.state_setup),
        measured_by(clock, Phase::Requests, r.request_build),
        measured_by(clock, Phase::Responses, r.server_response),
        measured_by(clock, Phase::Answers, r.response_process),
{
    let file_bytes: usize = data.len();
    let t0: u128 = clock(Mark::Start(Phase::Setup));
    let groups: Vec<S> = build_groups(level, all, backend, ids, hp, prp_key, hints, make);
    let t1: u128 = clock(Mark::End(Phase::Setup));
    let ghost made = groups@;
    let t2: u128 = clock(Mark::Start(Phase::Requests));
    let (states, requests) = build_requests(groups, trial_index, hp, backend, ids, &build);
    let t3: u128 = clock(Mark::End(Phase::Requests));
    let ghost built = states@;
    let t4: u128 = clock(Mark::Start(Phase::Responses));
    assert forall|i: int| 0 <= i < requests@.len() implies (#[trigger] requests@[i]).group < hp.k
        && (requests@[i].bytes@.len() / 4) * hp.entry_size <= usize::MAX by {
        let g = i as usize;
        assert(requests@[g as int].group == g);
        assert(call_ensures(
            build,
            (made[i], requests@[i].query as u32),
            (built[i], requests@[i].bytes),
        ));
    }
    let responses: Vec<Vec<u8>> = answer_requests(&requests, data, hp);
    let t5: u128 = clock(Mark::End(Phase::Responses));
    let t6: u128 = clock(Mark::Start(Phase::Answers));
    let answers: Vec<Vec<u8>> = process_responses(states, &responses, &process);
    assert forall|i: int| 0 <= i < requests@.len() implies bin_start(
        hp.header_size,
        hp.table_bytes() as usize,
        hp.entry_size,
        (#[trigger] requests@[i]).group as int,
        requests@[i].query as int,
    ) + hp.entry_size <= data@.len() by {
        let g = i as usize;
        assert(requests@[g as int].group == g);
        law_layout_covers(hp.layout(file_bytes), i, requests@[i].query as int);
    }
    let verdict = verify_answers(&requests, &answers, data, hp);
    let t7: u128 = clock(Mark::End(Phase::Answers));
    let r = OnlineRun {
        state_setup: elapsed_time(t0, t1),
        request_build: elapsed_time(t2, t3),
        server_response: elapsed_time(t4, t5),
        response_process: elapsed_time(t6, t7),
        requests,
        responses,
        verdict,
    };
    assert(call_ensures(clock, (Mark::Start(Phase::Setup),), t0));
    assert(call_ensures(clock, (Mark::End(Phase::Setup),), t1));
    assert(call_ensures(clock, (Mark::Start(Phase::Requests),), t2));
    assert(call_ensures(clock, (Mark::End(Phase::Requests),), t3));
    assert(call_ensures(clock, (Mark::Start(Phase::Responses),), t4));
    assert(call_ensures(clock, (Mark::End(Phase::Responses),), t5));
    assert(call_ensures(clock, (Mark::Start(Phase::Answers),), t6));
    assert(call_ensures(clock, (Mark::End(Phase::Answers),), t7));
    assert(states_made(level, *all, backend, *ids, *hp, *prp_key, hints@, make, made));
    assert(run_of(*hp, data@, build, process, made, built, answers@, r));
    r
}

/// `build` asks for the other entries of the queried entry's segment, each once, and keeps the
/// hints and the cells; the state then knows what was asked for, and in how many rows.
pub open spec fn asks_for_segment<S, B: Fn(S, u32) -> (S, Vec<u8>)>(
    hp: HintParams,
    build: B,
    stored: spec_fn(S) -> Seq<u8>,
    cells: spec_fn(S) -> Seq<usize>,
    asked: spec_fn(S) -> int,
    rows: spec_fn(S) -> nat,
) -> bool {
    forall|s: S, query: u32, next: S, bytes: Vec<u8>| #[trigger]
        call_ensures(build, (s, query), (next, bytes)) && query < hp.bins_per_table ==> {
            &&& stored(next) == stored(s)
            &&& cells(next) == cells(s)
            &&& asked(next) == query
            &&& rows(next) == request_indices(bytes@).len()
            &&& request_indices(bytes@).no_duplicates()
            &&& forall|i: int|
                0 <= i < hp.bins_per_table ==> (#[trigger] request_indices(bytes@).contains(
                    i as nat,
                ) <==> i != query && hp.segment_of(cells(s), i) == hp.segment_of(
                    cells(s),
                    query as int,
                ))
        }
}

/// `process` combines the stored hint of the queried entry's segment with the rows of the response.
pub open spec fn combines_hint<S, A: Fn(S, &Vec<u8>) -> Vec<u8>>(
    hp: HintParams,
    process: A,
    stored: spec_fn(S) -> Seq<u8>,
    cells: spec_fn(S) -> Seq<usize>,
    asked: spec_fn(S) -> int,
    rows: spec_fn(S) -> nat,
) -> bool {
    forall|s: S, response: Vec<u8>, answer: Vec<u8>| #[trigger]
        call_ensures(process, (s, &response), answer) ==> answer@ == xor_seq(
            entry_at(stored(s), hp.entry_size, hp.segment_of(cells(s), asked(s))),
            select_xor(
                answer_rows(response@, hp.entry_size, rows(s)),
                |i: int| true,
                hp.entry_size as nat,
            ),
        )
}

/// The client's state `state` holds the hints of the table `table` under its cells, each of which
/// lies in a segment.
pub open spec fn holds_table_hints<S>(
    hp: HintParams,
    stored: spec_fn(S) -> Seq<u8>,
    cells: spec_fn(S) -> Seq<usize>,
    table: Seq<u8>,
    state: S,
) -> bool {
    &&& hp.holds_hints(stored(state), cells(state), table)
    &&& forall|i: int|
        0 <= i < hp.bins_per_table ==> 0 <= #[trigger] hp.segment_of(cells(state), i) < hp.m
}

/// A trial verifies without failure where every client state holds the hints of its group's table,
/// asks for the other entries of the queried entry's segment, and combines the segment's hint with
/// the rows of the response.
pub proof fn law_honest_client_verifies<
    S,
    B: Fn(S, u32) -> (S, Vec<u8>),
    A: Fn(S, &Vec<u8>) -> Vec<u8>,
>(
    hp: HintParams,
    data: Seq<u8>,
    file_bytes: usize,
    trial_index: usize,
    backend_id: u8,
    build: B,
    process: A,
    stored: spec_fn(S) -> Seq<u8>,
    cells: spec_fn(S) -> Seq<usize>,
    asked: spec_fn(S) -> int,
    rows: spec_fn(S) -> nat,
    made: Seq<S>,
    built: Seq<S>,
    answers: Seq<Vec<u8>>,
    run: OnlineRun,
)
    requires
        tables_fit(hp, data),
        data.len() == file_bytes,
        hp.bins_per_table <= hp.padded_n,
        0 < hp.bins_per_table <= u32::MAX,
        trial_requests(trial_index, hp, backend_id, run.requests@),
        run_of(hp, data, build, process, made, built, answers, run),
        forall|g: int|
            0 <= g < hp.k ==> holds_table_hints(
                hp,
                stored,
                cells,
                hp.table(data, g),
                #[trigger] made[g],
            ),
        asks_for_segment(hp, build, stored, cells, asked, rows),
        combines_hint(hp, process, stored, cells, asked, rows),
    ensures
        run.verdict.failures == 0,
{
    let requests = run.requests@;
    let l = hp.layout(file_bytes);
    assert forall|i: int| 0 <= i < requests.len() implies (#[trigger] requests[i]).group == i
        && requests[i].query < hp.bins_per_table by {
        let g = i as usize;
        assert(requests[g as int].group == g);
    }
    assert forall|i: int| 0 <= i < requests.len() implies (#[trigger] answers[i])@ == entry_at(
        hp.table(data, requests[i].group as int),
        hp.entry_size,
        requests[i].query as int,
    ) by {
        let table = hp.table(data, i);
        let query = requests[i].query as int;
        let bytes = requests[i].bytes@;
        assert(requests[i].group == i);
        lemma_table_in_file(l, i);
        assert(holds_table_hints(hp, stored, cells, table, made[i]));
        assert(call_ensures(
            build,
            (made[i], requests[i].query as u32),
            (built[i], requests[i].bytes),
        ));
        assert(call_ensures(process, (built[i], &run.responses@[i]), answers[i]));
        assert(run.responses@[i]@ == response_to(
            request_indices(bytes),
            table,
            hp.bins_per_table,
            hp.entry_size,
        ));
        law_client_recovers_entry(
            hp,
            cells(made[i]),
            table,
            stored(made[i]),
            query,
            bytes,
        );
    }
    law_recovered_entries_verify(hp, data, file_bytes, requests, answers);
}

} // verus!
