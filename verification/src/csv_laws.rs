//! What stands under each column of the lines that the runners print.
#[allow(unused_imports)]
use crate::cli::Tool;
#[allow(unused_imports)]
use crate::csv::{
    columns, field_views, hex_char, hex_digits, hint_fields, line_of, merkle_fields, merkle_times,
    online_fields, online_times, round_fields, round_times, text_of, texts_of, RowLabel,
};
#[allow(unused_imports)]
use crate::dpf_trial::RoundReport;
#[allow(unused_imports)]
use crate::hints::{hint_summary, HintParams, HintRun};
#[allow(unused_imports)]
use crate::kinds::{Backend, BackendIds};
#[allow(unused_imports)]
use crate::layout::TableLayout;
#[allow(unused_imports)]
use crate::merkle::artifact_size;
#[allow(unused_imports)]
use crate::merkle_trial::MerkleReport;
#[allow(unused_imports)]
use crate::online::{OnlineRun, OnlineSummary};
#[allow(unused_imports)]
use crate::text::decimal_digits;
#[allow(unused_imports)]
use vstd::arithmetic::power::{lemma_pow1, lemma_pow_adds, lemma_pow_positive, pow};
use vstd::prelude::*;

verus! {

/// A line holds its fields in their order, with a comma between two of them and nothing else.
pub proof fn law_line_of_fields(a: Seq<Seq<char>>, b: Seq<Seq<char>>, field: Seq<char>)
    ensures
        line_of(Seq::empty()) == Seq::<char>::empty(),
        line_of(seq![field]) == field,
        a.len() > 0 && b.len() > 0 ==> line_of(a + b) == line_of(a) + seq![','] + line_of(b),
    decreases b.len(),
{
    reveal_strlit(",");
    assert(","@ =~= seq![',']);
    if a.len() > 0 && b.len() > 0 {
        assert((a + b).drop_last() =~= a + b.drop_last());
        assert((a + b).last() == b.last());
        if b.len() == 1 {
            assert(a + b.drop_last() =~= a);
        } else {
            law_line_of_fields(a, b.drop_last(), field);
            assert(line_of(a + b) =~= line_of(a) + seq![','] + line_of(b));
        }
    }
}

/// A digit of a hexadecimal number is one of these sixteen.
pub proof fn law_hexadecimal_digits(d: nat)
    requires
        d < 16,
    ensures
        hex_char(d) == "0123456789abcdef"@[d as int],
{
    reveal_strlit("0123456789abcdef");
}

/// A hexadecimal number of `n` digits has at each place the digit that its value has there.
pub proof fn law_hexadecimal_places(x: nat, n: nat, i: int)
    requires
        0 <= i < n,
    ensures
        hex_digits(x, n).len() == n,
        hex_digits(x, n)[i] == hex_char(((x as int / pow(16, (n - 1 - i) as nat)) % 16) as nat),
    decreases n,
{
    lemma_pow_positive(16, (n - 1 - i) as nat);
    if i == n - 1 {
        assert(pow(16, 0) == 1) by {
            reveal(pow);
        }
        if n > 1 {
            law_hexadecimal_places(x / 16, (n - 1) as nat, 0);
        }
        assert(hex_digits(x / 16, 0).len() == 0);
        assert(x as int / 1 == x);
    } else {
        law_hexadecimal_places(x / 16, (n - 1) as nat, i);
        let p = pow(16, (n - 2 - i) as nat);
        lemma_pow_positive(16, (n - 2 - i) as nat);
        lemma_pow1(16);
        lemma_pow_adds(16, 1, (n - 2 - i) as nat);
        vstd::arithmetic::div_mod::lemma_div_denominator(x as int, 16, p);
    }
}

proof fn lemma_hex_tells(x: nat, y: nat, n: nat)
    requires
        hex_digits(x, n) == hex_digits(y, n),
        x < pow(16, n),
        y < pow(16, n),
    ensures
        x == y,
    decreases n,
{
    if n == 0 {
        assert(pow(16, 0) == 1) by {
            reveal(pow);
        }
    } else {
        let m = (n - 1) as nat;
        lemma_pow1(16);
        lemma_pow_adds(16, 1, m);
        assert(hex_digits(x, n).drop_last() =~= hex_digits(x / 16, m));
        assert(hex_digits(y, n).drop_last() =~= hex_digits(y / 16, m));
        assert(hex_digits(x, n).last() == hex_char(x % 16));
        assert(hex_digits(y, n).last() == hex_char(y % 16));
        lemma_hex_tells(x / 16, y / 16, m);
    }
}

/// Sixteen hexadecimal digits tell a checksum.
pub proof fn law_checksum_is_told(x: u64, y: u64)
    requires
        hex_digits(x as nat, 16) == hex_digits(y as nat, 16),
    ensures
        x == y,
{
    assert(pow(16, 16) == 0x1_0000_0000_0000_0000) by {
        reveal(pow);
        reveal_with_fuel(pow, 17);
    }
    lemma_hex_tells(x as nat, y as nat, 16);
}

/// What contracts speak of as fields are all fields, and the texts of times are those that were
/// made of them, one of each.
pub proof fn law_fields_hold_all<R: Fn(u128) -> String>(
    fields: Seq<String>,
    render: R,
    times: Seq<u128>,
    texts: Seq<Seq<char>>,
)
    ensures
        field_views(fields).len() == fields.len(),
        forall|i: int| 0 <= i < fields.len() ==> #[trigger] field_views(fields)[i] == fields[i]@,
        texts_of(render, times, texts) ==> texts.len() == times.len(),
        texts_of(render, times, texts) ==> forall|i: int|
            0 <= i < times.len() ==> text_of(render, times[i], #[trigger] texts[i]),
{
}

/// A text of a time is what was made of that time.
pub proof fn law_text_of_time<R: Fn(u128) -> String>(
    render: R,
    time: u128,
    text: Seq<char>,
) -> (made: String)
    requires
        text_of(render, time, text),
    ensures
        call_ensures(render, (time,), made),
        made@ == text,
{
    choose|s: String| #[trigger] call_ensures(render, (time,), s) && s@ == text
}

/// What stands under each column of a row of the two-server round.
pub proof fn law_columns_of_round_row<R: Fn(u128) -> String>(
    label: RowLabel<'_>,
    l: TableLayout,
    dpf_n: u8,
    report: RoundReport,
    render: R,
    seconds: Seq<Seq<char>>,
)
    requires
        texts_of(render, round_times(report), seconds),
    ensures
        ({
            let names = columns(Tool::DpfRound);
            let f = round_fields(label, l, dpf_n, report, seconds);
            &&& names.len() == 30 && f.len() == 30
            &&& names[0] == "database"@ && f[0] == label.database@
            &&& names[1] == "kind"@ && f[1] == label.kind@
            &&& names[2] == "level"@ && f[2] == label.level.name()
            &&& names[3] == "trial"@ && f[3] == decimal_digits(label.trial as nat)
            &&& names[4] == "path"@ && f[4] == label.path@
            &&& names[5] == "k"@ && f[5] == decimal_digits(l.k as nat)
            &&& names[6] == "bins_per_table"@ && f[6] == decimal_digits(l.bins_per_table as nat)
            &&& names[7] == "dpf_n"@ && f[7] == decimal_digits(dpf_n as nat)
            &&& names[8] == "file_bytes"@ && f[8] == decimal_digits(l.file_bytes as nat)
            &&& names[9] == "body_bytes"@
            &&& f[9] == decimal_digits(report.summary.body_bytes as nat)
            &&& names[10] == "result_size_bytes"@ && f[10] == decimal_digits(l.result_size as nat)
            &&& names[11] == "key_size_bytes"@
            &&& f[11] == decimal_digits(report.summary.key_size as nat)
            &&& names[12] == "upload_per_server_bytes"@
            &&& f[12] == decimal_digits(report.summary.upload_per_server as nat)
            &&& names[13] == "download_per_server_bytes"@
            &&& f[13] == decimal_digits(report.summary.download_per_server as nat)
            &&& names[14] == "keygen_s"@ && text_of(render, report.keygen, f[14])
            &&& names[15] == "server0_s"@ && text_of(render, report.s0.wall, f[15])
            &&& names[16] == "server1_s"@ && text_of(render, report.s1.wall, f[16])
            &&& names[17] == "server_parallel_s"@
            &&& text_of(render, report.summary.server_parallel, f[17])
            &&& names[18] == "server_local_sequential_s"@
            &&& text_of(render, report.summary.server_sequential, f[18])
            &&& names[19] == "server0_dpf_eval_sum_s"@ && text_of(render, report.s0.dpf_sum, f[19])
            &&& names[20] == "server1_dpf_eval_sum_s"@ && text_of(render, report.s1.dpf_sum, f[20])
            &&& names[21] == "server0_fetch_xor_sum_s"@
            &&& text_of(render, report.s0.fetch_sum, f[21])
            &&& names[22] == "server1_fetch_xor_sum_s"@
            &&& text_of(render, report.s1.fetch_sum, f[22])
            &&& names[23] == "client_verify_s"@ && text_of(render, report.verify_wall, f[23])
            &&& names[24] == "total_parallel_s"@
            &&& text_of(render, report.summary.total_parallel, f[24])
            &&& names[25] == "total_local_sequential_s"@
            &&& text_of(render, report.summary.total_local_sequential, f[25])
            &&& names[26] == "verified_queries"@
            &&& f[26] == decimal_digits(report.summary.verified_queries as nat)
            &&& names[27] == "verification_failures"@
            &&& f[27] == decimal_digits(report.verdict.failures as nat)
            &&& names[28] == "checksum"@ && f[28] == hex_digits(report.summary.checksum as nat, 16)
            &&& names[29] == "cache_state"@ && f[29] == "warm-cache"@
        }),
{
    let times = round_times(report);
    assert(text_of(render, times[0], seconds[0]));
    assert(text_of(render, times[1], seconds[1]));
    assert(text_of(render, times[2], seconds[2]));
    assert(text_of(render, times[3], seconds[3]));
    assert(text_of(render, times[4], seconds[4]));
    assert(text_of(render, times[5], seconds[5]));
    assert(text_of(render, times[6], seconds[6]));
    assert(text_of(render, times[7], seconds[7]));
    assert(text_of(render, times[8], seconds[8]));
    assert(text_of(render, times[9], seconds[9]));
    assert(text_of(render, times[10], seconds[10]));
    assert(text_of(render, times[11], seconds[11]));
}

/// What stands under each column of a row of hint generation.
pub proof fn law_columns_of_hint_row(
    label: RowLabel<'_>,
    backend: Backend,
    ids: BackendIds,
    hp: HintParams,
    run: HintRun,
    artifact_bytes: usize,
    generation: Seq<char>,
)
    ensures
        ({
            let names = columns(Tool::HarmonyHint);
            let f = hint_fields(label, backend, ids, hp, run, artifact_bytes, generation);
            let summary = hint_summary(hp, run, backend, ids);
            &&& names.len() == 21 && f.len() == 21
            &&& names[0] == "database"@ && f[0] == label.database@
            &&& names[1] == "kind"@ && f[1] == label.kind@
            &&& names[2] == "level"@ && f[2] == label.level.name()
            &&& names[3] == "backend"@ && f[3] == backend.name()
            &&& names[4] == "trial"@ && f[4] == decimal_digits(label.trial as nat)
            &&& names[5] == "path"@ && f[5] == label.path@
            &&& names[6] == "k"@ && f[6] == decimal_digits(hp.k as nat)
            &&& names[7] == "bins_per_table"@ && f[7] == decimal_digits(hp.bins_per_table as nat)
            &&& names[8] == "padded_n"@ && f[8] == decimal_digits(hp.padded_n as nat)
            &&& names[9] == "t"@ && f[9] == decimal_digits(hp.t as nat)
            &&& names[10] == "m"@ && f[10] == decimal_digits(hp.m as nat)
            &&& names[11] == "max_queries"@ && f[11] == decimal_digits(summary.max_queries as nat)
            &&& names[12] == "entry_size_bytes"@ && f[12] == decimal_digits(hp.entry_size as nat)
            &&& names[13] == "hints_bytes_total"@ && f[13] == decimal_digits(run.hints_bytes as nat)
            &&& names[14] == "hints_bytes_per_group"@
            &&& f[14] == decimal_digits(summary.hints_per_group as nat)
            &&& names[15] == "request_bytes_per_query"@
            &&& f[15] == decimal_digits(summary.request_bytes as nat)
            &&& names[16] == "response_bytes_per_query"@
            &&& f[16] == decimal_digits(summary.response_bytes as nat)
            &&& names[17] == "artifact_bytes"@ && f[17] == decimal_digits(artifact_bytes as nat)
            &&& names[18] == "hint_generation_s"@ && f[18] == generation
            &&& names[19] == "checksum"@ && f[19] == hex_digits(summary.checksum as nat, 16)
            &&& names[20] == "cache_state"@ && f[20] == "warm-cache"@
        }),
{
}

/// What stands under each column of a row of the online phase.
pub proof fn law_columns_of_online_row<R: Fn(u128) -> String>(
    label: RowLabel<'_>,
    backend: Backend,
    hp: HintParams,
    run: OnlineRun,
    summary: OnlineSummary,
    artifact_bytes: usize,
    total_online: u128,
    generation: u128,
    render: R,
    seconds: Seq<Seq<char>>,
)
    requires
        texts_of(render, online_times(run, total_online, generation), seconds),
    ensures
        ({
            let names = columns(Tool::HarmonyOnline);
            let f = online_fields(label, backend, hp, run, summary, artifact_bytes, seconds);
            &&& names.len() == 30 && f.len() == 30
            &&& names[0] == "database"@ && f[0] == label.database@
            &&& names[1] == "kind"@ && f[1] == label.kind@
            &&& names[2] == "level"@ && f[2] == label.level.name()
            &&& names[3] == "backend"@ && f[3] == backend.name()
            &&& names[4] == "trial"@ && f[4] == decimal_digits(label.trial as nat)
            &&& names[5] == "path"@ && f[5] == label.path@
            &&& names[6] == "k"@ && f[6] == decimal_digits(hp.k as nat)
            &&& names[7] == "bins_per_table"@ && f[7] == decimal_digits(hp.bins_per_table as nat)
            &&& names[8] == "padded_n"@ && f[8] == decimal_digits(hp.padded_n as nat)
            &&& names[9] == "t"@ && f[9] == decimal_digits(hp.t as nat)
            &&& names[10] == "m"@ && f[10] == decimal_digits(hp.m as nat)
            &&& names[11] == "max_queries"@ && f[11] == decimal_digits(hp.max_queries as nat)
            &&& names[12] == "entry_size_bytes"@ && f[12] == decimal_digits(hp.entry_size as nat)
            &&& names[13] == "hints_bytes_total"@
            &&& f[13] == decimal_digits(summary.hints_bytes_total as nat)
            &&& names[14] == "hints_bytes_per_group"@
            &&& f[14] == decimal_digits(summary.hints_bytes_per_group as nat)
            &&& names[15] == "request_bytes_total"@
            &&& f[15] == decimal_digits(summary.request_bytes_total as nat)
            &&& names[16] == "request_bytes_per_group"@
            &&& f[16] == decimal_digits(summary.request_bytes_per_group as nat)
            &&& names[17] == "response_bytes_total"@
            &&& f[17] == decimal_digits(summary.response_bytes_total as nat)
            &&& names[18] == "response_bytes_per_group"@
            &&& f[18] == decimal_digits(summary.response_bytes_per_group as nat)
            &&& names[19] == "state_setup_s"@ && text_of(render, run.state_setup, f[19])
            &&& names[20] == "request_build_s"@ && text_of(render, run.request_build, f[20])
            &&& names[21] == "server_response_s"@ && text_of(render, run.server_response, f[21])
            &&& names[22] == "response_process_s"@ && text_of(render, run.response_process, f[22])
            &&& names[23] == "total_online_s"@ && text_of(render, total_online, f[23])
            &&& names[24] == "verified_queries"@
            &&& f[24] == decimal_digits(summary.verified_queries as nat)
            &&& names[25] == "failures"@ && f[25] == decimal_digits(run.verdict.failures as nat)
            &&& names[26] == "artifact_bytes"@ && f[26] == decimal_digits(artifact_bytes as nat)
            &&& names[27] == "hint_generation_s"@ && text_of(render, generation, f[27])
            &&& names[28] == "checksum"@ && f[28] == hex_digits(summary.checksum as nat, 16)
            &&& names[29] == "cache_state"@ && f[29] == "warm-cache"@
        }),
{
    let times = online_times(run, total_online, generation);
    assert(text_of(render, times[0], seconds[0]));
    assert(text_of(render, times[1], seconds[1]));
    assert(text_of(render, times[2], seconds[2]));
    assert(text_of(render, times[3], seconds[3]));
    assert(text_of(render, times[4], seconds[4]));
    assert(text_of(render, times[5], seconds[5]));
}

/// What stands under each column of a row of the Merkle round.
pub proof fn law_columns_of_merkle_row<R: Fn(u128) -> String>(
    label: RowLabel<'_>,
    data: TableLayout,
    siblings: Seq<TableLayout>,
    tree_top_bytes: usize,
    report: MerkleReport,
    render: R,
    seconds: Seq<Seq<char>>,
)
    requires
        siblings.len() <= usize::MAX,
        texts_of(render, merkle_times(report), seconds),
    ensures
        ({
            let names = columns(Tool::MerkleRound);
            let f = merkle_fields(label, data, siblings, tree_top_bytes, report, seconds);
            let bytes = artifact_size(data, siblings, tree_top_bytes);
            &&& names.len() == 28 && f.len() == 28
            &&& names[0] == "database"@ && f[0] == label.database@
            &&& names[1] == "kind"@ && f[1] == label.kind@
            &&& names[2] == "level"@ && f[2] == label.level.name()
            &&& names[3] == "trial"@ && f[3] == decimal_digits(label.trial as nat)
            &&& names[4] == "path"@ && f[4] == label.path@
            &&& names[5] == "k"@ && f[5] == decimal_digits(data.k as nat)
            &&& names[6] == "bins_per_table"@ && f[6] == decimal_digits(data.bins_per_table as nat)
            &&& names[7] == "arity"@ && f[7] == decimal_digits(8)
            &&& names[8] == "sibling_levels"@ && f[8] == decimal_digits(siblings.len())
            &&& names[9] == "tree_top_bytes"@ && f[9] == decimal_digits(tree_top_bytes as nat)
            &&& names[10] == "sibling_bytes_total"@
            &&& f[10] == decimal_digits(bytes.sibling_bytes_total as nat)
            &&& names[11] == "file_bytes"@ && f[11] == decimal_digits(bytes.file_bytes as nat)
            &&& names[12] == "upload_per_server_bytes"@
            &&& f[12] == decimal_digits(report.upload_per_server as nat)
            &&& names[13] == "download_per_server_bytes"@
            &&& f[13] == decimal_digits(report.summary.download_per_server as nat)
            &&& names[14] == "keygen_s"@ && text_of(render, report.keygen, f[14])
            &&& names[15] == "server0_s"@ && text_of(render, report.s0.wall, f[15])
            &&& names[16] == "server1_s"@ && text_of(render, report.s1.wall, f[16])
            &&& names[17] == "server_parallel_s"@
            &&& text_of(render, report.summary.server_parallel, f[17])
            &&& names[18] == "server0_dpf_eval_sum_s"@ && text_of(render, report.s0.dpf_sum, f[18])
            &&& names[19] == "server1_dpf_eval_sum_s"@ && text_of(render, report.s1.dpf_sum, f[19])
            &&& names[20] == "server0_fetch_xor_sum_s"@
            &&& text_of(render, report.s0.fetch_sum, f[20])
            &&& names[21] == "server1_fetch_xor_sum_s"@
            &&& text_of(render, report.s1.fetch_sum, f[21])
            &&& names[22] == "client_verify_s"@ && text_of(render, report.verify_wall, f[22])
            &&& names[23] == "total_parallel_s"@
            &&& text_of(render, report.summary.total_parallel, f[23])
            &&& names[24] == "verified_groups"@
            &&& f[24] == decimal_digits(report.summary.verified_groups as nat)
            &&& names[25] == "verification_failures"@
            &&& f[25] == decimal_digits(report.verdict.failures as nat)
            &&& names[26] == "checksum"@ && f[26] == hex_digits(report.summary.checksum as nat, 16)
            &&& names[27] == "cache_state"@ && f[27] == "warm-cache"@
        }),
{
    let times = merkle_times(report);
    assert(text_of(render, times[0], seconds[0]));
    assert(text_of(render, times[1], seconds[1]));
    assert(text_of(render, times[2], seconds[2]));
    assert(text_of(render, times[3], seconds[3]));
    assert(text_of(render, times[4], seconds[4]));
    assert(text_of(render, times[5], seconds[5]));
    assert(text_of(render, times[6], seconds[6]));
    assert(text_of(render, times[7], seconds[7]));
    assert(text_of(render, times[8], seconds[8]));
    assert(text_of(render, times[9], seconds[9]));
}

} // verus!
