use pir_bench::cli::Tool;
use pir_bench::csv::{
    header_line, hex16, hint_report_row, join_fields, merkle_report_row, online_report_row,
    round_report_row, RowLabel,
};
use pir_bench::dpf::{summarize_round, ServerRun};
use pir_bench::dpf_trial::RoundReport;
use pir_bench::hints::{HintBundle, HintParams, HintRun};
use pir_bench::kinds::{Backend, BackendIds, Level};
use pir_bench::layout::table_layout;
use pir_bench::merkle::{summarize_merkle, MerkleServerRun};
use pir_bench::merkle_trial::MerkleReport;
use pir_bench::online::{OnlineRun, RequestRecord};
use pir_bench::tally::Verdict;

fn label(level: Level) -> RowLabel<'static> {
    RowLabel { database: "full_948454", kind: "full", level, trial: 7, path: "/data/x.bin" }
}

fn seconds(time: u128) -> String {
    format!("{:.9}", time as f64 / 1e9)
}

fn columns(line: &str) -> usize {
    line.split(',').count()
}

#[test]
fn fields_are_joined() {
    assert_eq!(join_fields(&vec![]), "");
    assert_eq!(join_fields(&vec!["a".to_string()]), "a");
    let three = vec!["a".to_string(), String::new(), "c".to_string()];
    assert_eq!(join_fields(&three), "a,,c");
}

#[test]
fn a_line_tells_its_fields() {
    let fields: Vec<String> = ["x", "", "y z", ""].iter().map(|f| f.to_string()).collect();
    let line = join_fields(&fields);
    let back: Vec<String> = line.split(',').map(|f| f.to_string()).collect();
    assert_eq!(back, fields);
}

#[test]
fn checksums_have_sixteen_digits() {
    for x in [0u64, 1, 0xab, 0xcbf29ce484222325, u64::MAX] {
        assert_eq!(hex16(x), format!("{:016x}", x));
    }
}

#[test]
fn header_of_the_two_server_round() {
    assert_eq!(header_line(Tool::DpfRound), "database,kind,level,trial,path,k,bins_per_table,dpf_n,file_bytes,body_bytes,result_size_bytes,key_size_bytes,upload_per_server_bytes,download_per_server_bytes,keygen_s,server0_s,server1_s,server_parallel_s,server_local_sequential_s,server0_dpf_eval_sum_s,server1_dpf_eval_sum_s,server0_fetch_xor_sum_s,server1_fetch_xor_sum_s,client_verify_s,total_parallel_s,total_local_sequential_s,verified_queries,verification_failures,checksum,cache_state");
}

#[test]
fn header_of_hint_generation() {
    assert_eq!(header_line(Tool::HarmonyHint), "database,kind,level,backend,trial,path,k,bins_per_table,padded_n,t,m,max_queries,entry_size_bytes,hints_bytes_total,hints_bytes_per_group,request_bytes_per_query,response_bytes_per_query,artifact_bytes,hint_generation_s,checksum,cache_state");
}

#[test]
fn header_of_the_online_phase() {
    assert_eq!(header_line(Tool::HarmonyOnline), "database,kind,level,backend,trial,path,k,bins_per_table,padded_n,t,m,max_queries,entry_size_bytes,hints_bytes_total,hints_bytes_per_group,request_bytes_total,request_bytes_per_group,response_bytes_total,response_bytes_per_group,state_setup_s,request_build_s,server_response_s,response_process_s,total_online_s,verified_queries,failures,artifact_bytes,hint_generation_s,checksum,cache_state");
}

#[test]
fn header_of_the_merkle_round() {
    assert_eq!(header_line(Tool::MerkleRound), "database,kind,level,trial,path,k,bins_per_table,arity,sibling_levels,tree_top_bytes,sibling_bytes_total,file_bytes,upload_per_server_bytes,download_per_server_bytes,keygen_s,server0_s,server1_s,server_parallel_s,server0_dpf_eval_sum_s,server1_dpf_eval_sum_s,server0_fetch_xor_sum_s,server1_fetch_xor_sum_s,client_verify_s,total_parallel_s,verified_groups,verification_failures,checksum,cache_state");
}

#[test]
fn row_of_the_two_server_round() {
    let l = table_layout(1000, 8, 3, 10, 16).unwrap();
    let server = |wall, dpf_sum, fetch_sum, checksum| ServerRun {
        outputs: vec![],
        wall,
        dpf_sum,
        fetch_sum,
        checksum,
    };
    let (s0, s1) = (server(2_000_000_000, 3, 4, 1), server(1_500_000_000, 5, 6, 2));
    let verdict = Verdict { failures: 2, checksum: 0xf0 };
    let summary = summarize_round(&l, 2, 9, 250_000_000, &s0, &s1, &verdict, 125_000_000);
    let report = RoundReport {
        keygen: 250_000_000,
        s0,
        s1,
        verdict,
        verify_wall: 125_000_000,
        summary,
    };
    let row = round_report_row(&label(Level::Index), &l, 9, &report, &seconds);
    assert_eq!(row, "full_948454,full,index,7,/data/x.bin,3,10,9,1000,480,16,178,1068,96,0.250000000,2.000000000,1.500000000,2.000000000,3.500000000,0.000000003,0.000000005,0.000000004,0.000000006,0.125000000,2.375000000,3.875000000,6,2,00000000000000f3,warm-cache");
    assert_eq!(columns(&row), columns(&header_line(Tool::DpfRound)));
}

#[test]
fn row_of_hint_generation() {
    let hp = HintParams::new(3, 10, 16, 12, 4, 6, 5, 3, 8);
    let run = HintRun { wall: 1_250_000_000, hints_bytes: 288, checksum: 0xabc };
    let ids = BackendIds { hmr12: 0, fast_prp: 1 };
    let row = hint_report_row(
        &label(Level::Chunk), Backend::FastPrp, &ids, &hp, &run, 1000, &seconds,
    );
    assert_eq!(row, "full_948454,full,chunk,fastprp,7,/data/x.bin,3,10,12,4,6,3,16,288,96,12,48,1000,1.250000000,0000000000000abd,warm-cache");
    assert_eq!(columns(&row), columns(&header_line(Tool::HarmonyHint)));
}

#[test]
fn row_of_the_online_phase() {
    let hp = HintParams::new(3, 10, 16, 12, 4, 6, 5, 2, 8);
    let ids = BackendIds { hmr12: 0x10, fast_prp: 1 };
    let bundle = HintBundle { hints: vec![vec![0; 96]; 3], generation: 6_000_000_000, checksum: 3 };
    let request = |group| RequestRecord { group, query: 1, bytes: vec![0; 12] };
    let run = OnlineRun {
        state_setup: 1_000_000_000,
        request_build: 2_000_000_000,
        server_response: 3_000_000_000,
        response_process: 4_000_000_000,
        requests: vec![request(0), request(1), request(2)],
        responses: vec![vec![0; 48]; 3],
        verdict: Verdict { failures: 1, checksum: 1 },
    };
    let row = online_report_row(
        &label(Level::Index), Backend::Hmr12, &ids, &hp, &bundle, &run, 999, &seconds,
    );
    assert_eq!(row, "full_948454,full,index,hmr12,7,/data/x.bin,3,10,12,4,6,2,16,288,96,36,12,144,48,1.000000000,2.000000000,3.000000000,4.000000000,9.000000000,3,1,999,6.000000000,0000000000000012,warm-cache");
    assert_eq!(columns(&row), columns(&header_line(Tool::HarmonyOnline)));
}

#[test]
fn row_of_the_merkle_round() {
    let l = table_layout(1000, 8, 3, 10, 16).unwrap();
    let siblings = vec![
        table_layout(400, 32, 1, 1, 256).unwrap(),
        table_layout(300, 32, 1, 1, 256).unwrap(),
    ];
    let server = |wall, dpf_sum, fetch_sum, checksum| MerkleServerRun {
        outputs: vec![],
        wall,
        dpf_sum,
        fetch_sum,
        checksum,
    };
    let (s0, s1) = (server(2_000_000_000, 3, 4, 1), server(1_500_000_000, 5, 6, 2));
    let verdict = Verdict { failures: 0, checksum: 0xf0 };
    let summary = summarize_merkle(3, 2, 250_000_000, &s0, &s1, &verdict, 125_000_000);
    let report = MerkleReport {
        keygen: 250_000_000,
        s0,
        s1,
        verdict,
        verify_wall: 125_000_000,
        upload_per_server: 1068,
        summary,
    };
    let row = merkle_report_row(&label(Level::Chunk), &l, &siblings, 100, &report, &seconds);
    assert_eq!(row, "full_948454,full,chunk,7,/data/x.bin,3,10,8,2,100,700,1800,1068,1536,0.250000000,2.000000000,1.500000000,2.000000000,0.000000003,0.000000005,0.000000004,0.000000006,0.125000000,2.375000000,3,0,00000000000000f3,warm-cache");
    assert_eq!(columns(&row), columns(&header_line(Tool::MerkleRound)));
}
