use pir_bench::bytes::{checksum_bytes, xor_into};
use pir_bench::hints::{hints_from_cells, HintBundle, HintParams};
use pir_bench::kinds::{Backend, BackendIds, Level, LevelParams, TableParams};
use pir_bench::online::{
    answer_request, build_groups, request_bytes_total, server_response, summarize_online,
    verify_answers, GroupSetup, OnlineRun, OnlineSummary, RequestRecord,
};
use pir_bench::online_trial::run_trial;
use pir_bench::random::query_for_trial;
use pir_bench::tally::Verdict;
use pir_bench::timing::{Mark, Phase};

const IDS: BackendIds = BackendIds { hmr12: 2, fast_prp: 5 };

fn params() -> HintParams {
    HintParams::new(3, 5, 2, 6, 3, 4, 4, 2, 4)
}

fn levels() -> LevelParams {
    let table = TableParams {
        k: 3,
        num_hashes: 0,
        master_seed: 0,
        slots_per_bin: 1,
        cuckoo_num_hashes: 2,
        slot_size: 2,
        dpf_n: 0,
        magic: 0,
        header_size: 4,
        has_tag_seed: false,
    };
    LevelParams { index: table, chunk: table }
}

fn data() -> Vec<u8> {
    (0..34u32).map(|i| (i * 37 % 256) as u8).collect()
}

fn request_of(indices: &[u32]) -> Vec<u8> {
    indices.iter().flat_map(|i| i.to_le_bytes()).collect()
}

#[test]
fn entries_are_answered_in_order() {
    let table = [1, 2, 3, 4, 5, 6, 7, 8, 9, 10];
    let hp = params();
    assert_eq!(server_response(&request_of(&[4, 0, 2]), &table, &hp), vec![9, 10, 1, 2, 5, 6]);
    assert_eq!(server_response(&request_of(&[]), &table, &hp), Vec::<u8>::new());
}

#[test]
fn entries_that_do_not_exist_are_zeros() {
    let table = [1, 2, 3, 4, 5, 6, 7, 8, 9, 10];
    let request = request_of(&[5, 1, u32::MAX]);
    assert_eq!(server_response(&request, &table, &params()), vec![0, 0, 3, 4, 0, 0]);
}

#[test]
fn bytes_left_over_ask_for_nothing() {
    let table = [1, 2, 3, 4, 5, 6, 7, 8, 9, 10];
    let mut request = request_of(&[1]);
    request.extend_from_slice(&[2, 0, 0]);
    assert_eq!(server_response(&request, &table, &params()), vec![3, 4]);
}

#[test]
fn requests_are_answered_over_the_table_of_their_group() {
    let record = RequestRecord { group: 2, query: 0, bytes: request_of(&[3, 9]) };
    assert_eq!(answer_request(&record, &data(), &params()), [&data()[30..32], &[0, 0]].concat());
}

#[test]
fn states_are_set_up_per_group() {
    let hints = vec![vec![1], vec![2], vec![3]];
    let make = |setup: &GroupSetup, key: &[u8; 16], hints: &Vec<u8>| {
        (*setup, key[0], hints.clone())
    };
    let groups = build_groups(
        Level::Chunk, &levels(), Backend::FastPrp, &IDS, &params(), &[0x42; 16], &hints, make,
    );
    assert_eq!(groups.len(), 3);
    for (g, (setup, key, hint)) in groups.iter().enumerate() {
        assert_eq!(
            *setup,
            GroupSetup {
                bins_per_table: 5,
                entry_size: 2,
                t: 3,
                protocol_group_id: 3 + g as u32,
                backend_id: 5,
            }
        );
        assert_eq!(*key, 0x42);
        assert_eq!(*hint, hints[g]);
    }
}

#[test]
fn answers_are_verified() {
    let data = data();
    let record = |group, query| RequestRecord { group, query, bytes: vec![] };
    let requests = vec![record(0, 4), record(2, 1)];
    let good = vec![data[12..14].to_vec(), data[26..28].to_vec()];
    let sum = checksum_bytes(&good[0]) ^ checksum_bytes(&good[1]);
    let verdict = verify_answers(&requests, &good, &data, &params());
    assert_eq!(verdict, Verdict { failures: 0, checksum: sum });
    let bad = vec![good[1].clone(), vec![data[26]]];
    assert_eq!(verify_answers(&requests, &bad, &data, &params()).failures, 2);
}

#[test]
fn summary_of_an_online_trial() {
    let bundle = HintBundle { hints: vec![vec![0; 8]; 3], generation: 9, checksum: 1 };
    let requests: Vec<RequestRecord> =
        (0..3).map(|g| RequestRecord { group: g, query: 0, bytes: vec![0; 8] }).collect();
    let responses = vec![vec![0; 4], vec![0; 4], vec![0; 3]];
    assert_eq!(request_bytes_total(&requests), 24);
    let run = OnlineRun {
        state_setup: 5,
        request_build: 10,
        server_response: 20,
        response_process: 30,
        requests,
        responses,
        verdict: Verdict { failures: 0, checksum: 8 },
    };
    assert_eq!(
        summarize_online(&params(), &bundle, &run, Backend::Hmr12, &IDS),
        OnlineSummary {
            hints_bytes_total: 24,
            hints_bytes_per_group: 8,
            request_bytes_total: 24,
            request_bytes_per_group: 8,
            response_bytes_total: 11,
            response_bytes_per_group: 3,
            total_online: 60,
            verified_queries: 3,
            checksum: 1 ^ 8 ^ 2,
        }
    );
}

/// A client for one group that asks for the other entries of the queried entry's segment.
struct Client {
    cells: Vec<usize>,
    hints: Vec<u8>,
    t: usize,
    query: usize,
}

fn cells(group: u32) -> Vec<usize> {
    (0..12).map(|i| (i * 5 + group as usize) % 12).collect()
}

fn make(setup: &GroupSetup, _key: &[u8; 16], hints: &Vec<u8>) -> Client {
    let cells = cells(setup.protocol_group_id);
    Client { cells, hints: hints.clone(), t: setup.t as usize, query: 0 }
}

fn build(client: Client, query: u32) -> (Client, Vec<u8>) {
    let query = query as usize;
    let segment = client.cells[query] / client.t;
    let others: Vec<u32> = (0..12)
        .filter(|&i| i != query && client.cells[i] / client.t == segment)
        .map(|i| i as u32)
        .collect();
    (Client { query, ..client }, request_of(&others))
}

fn process(client: Client, response: &Vec<u8>) -> Vec<u8> {
    let segment = client.cells[client.query] / client.t;
    let mut answer = client.hints[2 * segment..2 * segment + 2].to_vec();
    for row in response.chunks_exact(2) {
        xor_into(&mut answer, row);
    }
    answer
}

fn hints_of(data: &[u8], hp: &HintParams, first: u32) -> Vec<Vec<u8>> {
    (0..3)
        .map(|g| {
            let table = &data[4 + 10 * g..14 + 10 * g];
            hints_from_cells(&cells(first + g as u32), table, hp).0
        })
        .collect()
}

#[test]
fn hints_and_answers_recover_every_entry() {
    let data = data();
    let hp = params();
    let hints = hints_of(&data, &hp, 0);
    for group in 0..3 {
        for query in 0..5 {
            let setup = GroupSetup {
                bins_per_table: 5,
                entry_size: 2,
                t: 3,
                protocol_group_id: group as u32,
                backend_id: 0,
            };
            let client = make(&setup, &[0; 16], &hints[group]);
            let (client, bytes) = build(client, query as u32);
            let record = RequestRecord { group, query, bytes };
            let answer = process(client, &answer_request(&record, &data, &hp));
            let start = 4 + 10 * group + 2 * query;
            assert_eq!(answer, data[start..start + 2].to_vec());
        }
    }
}

#[test]
fn a_whole_online_trial() {
    let data = data();
    let hp = params();
    let hints = hints_of(&data, &hp, 3);
    let run = run_trial(
        Level::Chunk,
        &levels(),
        Backend::FastPrp,
        &IDS,
        &hp,
        &[0x42; 16],
        &hints,
        7,
        &data,
        make,
        build,
        process,
        |mark: Mark| match mark {
            Mark::Start(_) => 100,
            Mark::End(Phase::Setup) => 102,
            Mark::End(Phase::Requests) => 108,
            Mark::End(Phase::Responses) => 132,
            Mark::End(Phase::Answers) => 228,
            Mark::End(_) => unreachable!(),
        },
    );
    assert_eq!(run.verdict.failures, 0);
    assert_eq!(run.requests.len(), 3);
    let mut sum = 0;
    for (g, request) in run.requests.iter().enumerate() {
        assert_eq!(request.group, g);
        assert_eq!(request.query, query_for_trial(7, g, 5, 2, Backend::FastPrp, &IDS));
        assert_eq!(run.responses[g], answer_request(request, &data, &hp));
        let start = 4 + 10 * g + 2 * request.query;
        sum ^= checksum_bytes(&data[start..start + 2]);
    }
    assert_eq!(run.verdict.checksum, sum);
    assert_eq!(run.state_setup, 2);
    assert_eq!(run.request_build, 8);
    assert_eq!(run.server_response, 32);
    assert_eq!(run.response_process, 128);
}

#[test]
fn an_online_trial_with_wrong_hints() {
    let data = data();
    let hp = params();
    let mut hints = hints_of(&data, &hp, 0);
    for hint in hints[1].iter_mut() {
        *hint ^= 1;
    }
    let run = run_trial(
        Level::Index,
        &levels(),
        Backend::Hmr12,
        &IDS,
        &hp,
        &[0x42; 16],
        &hints,
        1,
        &data,
        make,
        build,
        process,
        |_: Mark| 0,
    );
    assert_eq!(run.verdict.failures, 1);
}
