//! The lines that the runners print: one header, then one row per measured trial.
use crate::cli::Tool;
use crate::dpf_trial::RoundReport;
use crate::hints::{summarize_hints, HintBundle, HintParams, HintRun};
use crate::kinds::{Backend, BackendIds, Level, MERKLE_ARITY};
use crate::layout::TableLayout;
use crate::merkle::artifact_bytes;
use crate::merkle_trial::MerkleReport;
use crate::online::{summarize_online, OnlineRun};
use crate::text::decimal_string;
use vstd::prelude::*;

#[allow(unused_imports)]
use crate::hints::{hint_sizes_fit, hint_summary};
#[allow(unused_imports)]
use crate::merkle::{artifact_size, sibling_bytes};
#[allow(unused_imports)]
use crate::online::{online_sizes_fit, online_summary, OnlineSummary};
#[allow(unused_imports)]
use crate::text::decimal_digits;

verus! {

/// The characters of each field.
pub open spec fn field_views(fields: Seq<String>) -> Seq<Seq<char>> {
    fields.map_values(|f: String| f@)
}

/// The fields of a line, separated by commas.
pub open spec fn line_of(fields: Seq<Seq<char>>) -> Seq<char>
    decreases fields.len(),
{
    if fields.len() == 0 {
        Seq::empty()
    } else if fields.len() == 1 {
        fields[0]
    } else {
        line_of(fields.drop_last()) + ","@ + fields.last()
    }
}

/// No field holds a comma.
pub open spec fn comma_free(fields: Seq<Seq<char>>) -> bool {
    forall|i: int, j: int|
        0 <= i < fields.len() && 0 <= j < fields[i].len() ==> #[trigger] fields[i][j] != ','
}

/// A line tells its fields: two lists of fields without commas that give one line are the same.
pub proof fn law_line_tells_its_fields(a: Seq<Seq<char>>, b: Seq<Seq<char>>)
    requires
        a.len() > 0,
        b.len() > 0,
        comma_free(a),
        comma_free(b),
        line_of(a) == line_of(b),
    ensures
        a == b,
    decreases a.len(),
{
    reveal_strlit(",");
    let x = a.last();
    let y = b.last();
    let line = line_of(a);
    assert forall|j: int| 0 <= j < x.len() implies #[trigger] x[j] != ',' by {
        assert(a[a.len() - 1][j] != ',');
    }
    assert forall|j: int| 0 <= j < y.len() implies #[trigger] y[j] != ',' by {
        assert(b[b.len() - 1][j] != ',');
    }
    let p = line.len() - x.len();
    let q = line.len() - y.len();
    assert(line.skip(p) =~= x);
    assert(line.skip(q) =~= y);
    if a.len() > 1 {
        assert(line[p - 1] == ',');
        if q < p {
            assert(y[p - 1 - q] == ',');
        }
    }
    if b.len() > 1 {
        assert(line[q - 1] == ',');
        if p < q {
            assert(x[q - 1 - p] == ',');
        }
    }
    assert(x == y);
    if a.len() > 1 && b.len() > 1 {
        let r = a.drop_last();
        let t = b.drop_last();
        assert(line.take(p - 1) =~= line_of(r));
        assert(line.take(q - 1) =~= line_of(t));
        assert forall|i: int, j: int| 0 <= i < r.len() && 0 <= j < r[i].len() implies #[trigger]
            r[i][j] != ',' by {
            assert(a[i][j] != ',');
        }
        assert forall|i: int, j: int| 0 <= i < t.len() && 0 <= j < t[i].len() implies #[trigger]
            t[i][j] != ',' by {
            assert(b[i][j] != ',');
        }
        law_line_tells_its_fields(r, t);
        assert(a =~= r.push(x));
        assert(b =~= t.push(y));
    } else {
        assert(a =~= b);
    }
}

/// Joins fields to a line.
pub fn join_fields(fields: &Vec<String>) -> (r: String)
    ensures
        r@ == line_of(field_views(fields@)),
{
    let n: usize = fields.len();
    let ghost views = field_views(fields@);
    let mut line = String::new();
    let mut i: usize = 0;
    assert(line@ =~= Seq::empty());
    while i < n
        invariant
            i <= n,
            n == fields@.len(),
            views == field_views(fields@),
            line@ == line_of(views.take(i as int)),
        decreases n - i,
    {
        assert(views.take(i + 1).drop_last() =~= views.take(i as int));
        if i > 0 {
            line.append(",");
        }
        line.append(fields[i].as_str());
        assert(line@ =~= line_of(views.take(i + 1)));
        i = i + 1;
    }
    assert(views.take(n as int) =~= views);
    line
}

/// The hexadecimal digit for `d`, where `d` is below sixteen.
pub open spec fn hex_char(d: nat) -> char {
    if d < 10 {
        ('0' as nat + d) as char
    } else {
        ('a' as nat + d - 10) as char
    }
}

/// The last `n` hexadecimal digits of `x`.
pub open spec fn hex_digits(x: nat, n: nat) -> Seq<char>
    decreases n,
{
    if n == 0 {
        Seq::empty()
    } else {
        hex_digits(x / 16, (n - 1) as nat).push(hex_char(x % 16))
    }
}

/// The text of one hexadecimal digit.
fn hex_str(d: u64) -> (r: &'static str)
    requires
        d < 16,
    ensures
        r@ == seq![hex_char(d as nat)],
{
    proof {
        reveal_strlit("0");
        reveal_strlit("1");
        reveal_strlit("2");
        reveal_strlit("3");
        reveal_strlit("4");
        reveal_strlit("5");
        reveal_strlit("6");
        reveal_strlit("7");
        reveal_strlit("8");
        reveal_strlit("9");
        reveal_strlit("a");
        reveal_strlit("b");
        reveal_strlit("c");
        reveal_strlit("d");
        reveal_strlit("e");
        reveal_strlit("f");
    }
    let r = match d {
        0 => "0",
        1 => "1",
        2 => "2",
        3 => "3",
        4 => "4",
        5 => "5",
        6 => "6",
        7 => "7",
        8 => "8",
        9 => "9",
        10 => "a",
        11 => "b",
        12 => "c",
        13 => "d",
        14 => "e",
        _ => "f",
    };
    assert(r@ =~= seq![hex_char(d as nat)]);
    r
}

/// The last `n` hexadecimal digits of `x`.
fn hex_text(x: u64, n: usize) -> (r: String)
    ensures
        r@ == hex_digits(x as nat, n as nat),
    decreases n,
{
    if n == 0 {
        String::new()
    } else {
        let mut r = hex_text(x / 16, n - 1);
        r.append(hex_str(x % 16));
        assert(r@ =~= hex_digits(x as nat, n as nat));
        r
    }
}

/// Writes a checksum as sixteen hexadecimal digits.
pub fn hex16(x: u64) -> (r: String)
    ensures
        r@ == hex_digits(x as nat, 16),
{
    hex_text(x, 16)
}

/// The columns of the lines of a runner.
pub open spec fn columns(tool: Tool) -> Seq<Seq<char>> {
    match tool {
        Tool::DpfRound => seq![
            "database"@,
            "kind"@,
            "level"@,
            "trial"@,
            "path"@,
            "k"@,
            "bins_per_table"@,
            "dpf_n"@,
            "file_bytes"@,
            "body_bytes"@,
            "result_size_bytes"@,
            "key_size_bytes"@,
            "upload_per_server_bytes"@,
            "download_per_server_bytes"@,
            "keygen_s"@,
            "server0_s"@,
            "server1_s"@,
            "server_parallel_s"@,
            "server_local_sequential_s"@,
            "server0_dpf_eval_sum_s"@,
            "server1_dpf_eval_sum_s"@,
            "server0_fetch_xor_sum_s"@,
            "server1_fetch_xor_sum_s"@,
            "client_verify_s"@,
            "total_parallel_s"@,
            "total_local_sequential_s"@,
            "verified_queries"@,
            "verification_failures"@,
            "checksum"@,
            "cache_state"@,
        ],
        Tool::HarmonyHint => seq![
            "database"@,
            "kind"@,
            "level"@,
            "backend"@,
            "trial"@,
            "path"@,
            "k"@,
            "bins_per_table"@,
            "padded_n"@,
            "t"@,
            "m"@,
            "max_queries"@,
            "entry_size_bytes"@,
            "hints_bytes_total"@,
            "hints_bytes_per_group"@,
            "request_bytes_per_query"@,
            "response_bytes_per_query"@,
            "artifact_bytes"@,
            "hint_generation_s"@,
            "checksum"@,
            "cache_state"@,
        ],
        Tool::HarmonyOnline => seq![
            "database"@,
            "kind"@,
            "level"@,
            "backend"@,
            "trial"@,
            "path"@,
            "k"@,
            "bins_per_table"@,
            "padded_n"@,
            "t"@,
            "m"@,
            "max_queries"@,
            "entry_size_bytes"@,
            "hints_bytes_total"@,
            "hints_bytes_per_group"@,
            "request_bytes_total"@,
            "request_bytes_per_group"@,
            "response_bytes_total"@,
            "response_bytes_per_group"@,
            "state_setup_s"@,
            "request_build_s"@,
            "server_response_s"@,
            "response_process_s"@,
            "total_online_s"@,
            "verified_queries"@,
            "failures"@,
            "artifact_bytes"@,
            "hint_generation_s"@,
            "checksum"@,
            "cache_state"@,
        ],
        Tool::MerkleRound => seq![
            "database"@,
            "kind"@,
            "level"@,
            "trial"@,
            "path"@,
            "k"@,
            "bins_per_table"@,
            "arity"@,
            "sibling_levels"@,
            "tree_top_bytes"@,
            "sibling_bytes_total"@,
            "file_bytes"@,
            "upload_per_server_bytes"@,
            "download_per_server_bytes"@,
            "keygen_s"@,
            "server0_s"@,
            "server1_s"@,
            "server_parallel_s"@,
            "server0_dpf_eval_sum_s"@,
            "server1_dpf_eval_sum_s"@,
            "server0_fetch_xor_sum_s"@,
            "server1_fetch_xor_sum_s"@,
            "client_verify_s"@,
            "total_parallel_s"@,
            "verified_groups"@,
            "verification_failures"@,
            "checksum"@,
            "cache_state"@,
        ],
    }
}

/// Adds a field.
fn push_text(fields: &mut Vec<String>, text: &str)
    ensures
        field_views(final(fields)@) == field_views(old(fields)@).push(text@),
{
    fields.push(text.to_owned());
    assert(field_views(fields@) =~= field_views(old(fields)@).push(text@));
}

/// Adds a number.
fn push_number(fields: &mut Vec<String>, n: usize)
    ensures
        field_views(final(fields)@) == field_views(old(fields)@).push(decimal_digits(n as nat)),
{
    fields.push(decimal_string(n));
    assert(field_views(fields@) =~= field_views(old(fields)@).push(decimal_digits(n as nat)));
}

/// Adds fields.
fn push_all(fields: &mut Vec<String>, more: &Vec<String>)
    ensures
        field_views(final(fields)@) == field_views(old(fields)@) + field_views(more@),
{
    let n: usize = more.len();
    let ghost before = field_views(fields@);
    let mut i: usize = 0;
    assert(field_views(more@).take(0) =~= Seq::empty());
    assert(before + field_views(more@).take(0) =~= before);
    while i < n
        invariant
            i <= n,
            n == more@.len(),
            field_views(fields@) == before + field_views(more@).take(i as int),
        decreases n - i,
    {
        push_text(fields, more[i].as_str());
        assert(field_views(more@).take(i + 1) =~= field_views(more@).take(i as int).push(
            more@[i as int]@,
        ));
        assert(field_views(fields@) =~= before + field_views(more@).take(i + 1));
        i = i + 1;
    }
    assert(field_views(more@).take(n as int) =~= field_views(more@));
}

fn dpf_columns(fields: &mut Vec<String>)
    requires
        old(fields)@.len() == 0,
    ensures
        field_views(final(fields)@) == columns(Tool::DpfRound),
{
    push_text(fields, "database");
    push_text(fields, "kind");
    push_text(fields, "level");
    push_text(fields, "trial");
    push_text(fields, "path");
    push_text(fields, "k");
    push_text(fields, "bins_per_table");
    push_text(fields, "dpf_n");
    push_text(fields, "file_bytes");
    push_text(fields, "body_bytes");
    push_text(fields, "result_size_bytes");
    push_text(fields, "key_size_bytes");
    push_text(fields, "upload_per_server_bytes");
    push_text(fields, "download_per_server_bytes");
    push_text(fields, "keygen_s");
    push_text(fields, "server0_s");
    push_text(fields, "server1_s");
    push_text(fields, "server_parallel_s");
    push_text(fields, "server_local_sequential_s");
    push_text(fields, "server0_dpf_eval_sum_s");
    push_text(fields, "server1_dpf_eval_sum_s");
    push_text(fields, "server0_fetch_xor_sum_s");
    push_text(fields, "server1_fetch_xor_sum_s");
    push_text(fields, "client_verify_s");
    push_text(fields, "total_parallel_s");
    push_text(fields, "total_local_sequential_s");
    push_text(fields, "verified_queries");
    push_text(fields, "verification_failures");
    push_text(fields, "checksum");
    push_text(fields, "cache_state");
    assert(field_views(fields@) =~= columns(Tool::DpfRound));
}

fn hint_columns(fields: &mut Vec<String>)
    requires
        old(fields)@.len() == 0,
    ensures
        field_views(final(fields)@) == columns(Tool::HarmonyHint),
{
    push_text(fields, "database");
    push_text(fields, "kind");
    push_text(fields, "level");
    push_text(fields, "backend");
    push_text(fields, "trial");
    push_text(fields, "path");
    push_text(fields, "k");
    push_text(fields, "bins_per_table");
    push_text(fields, "padded_n");
    push_text(fields, "t");
    push_text(fields, "m");
    push_text(fields, "max_queries");
    push_text(fields, "entry_size_bytes");
    push_text(fields, "hints_bytes_total");
    push_text(fields, "hints_bytes_per_group");
    push_text(fields, "request_bytes_per_query");
    push_text(fields, "response_bytes_per_query");
    push_text(fields, "artifact_bytes");
    push_text(fields, "hint_generation_s");
    push_text(fields, "checksum");
    push_text(fields, "cache_state");
    assert(field_views(fields@) =~= columns(Tool::HarmonyHint));
}

fn online_columns(fields: &mut Vec<String>)
    requires
        old(fields)@.len() == 0,
    ensures
        field_views(final(fields)@) == columns(Tool::HarmonyOnline),
{
    push_text(fields, "database");
    push_text(fields, "kind");
    push_text(fields, "level");
    push_text(fields, "backend");
    push_text(fields, "trial");
    push_text(fields, "path");
    push_text(fields, "k");
    push_text(fields, "bins_per_table");
    push_text(fields, "padded_n");
    push_text(fields, "t");
    push_text(fields, "m");
    push_text(fields, "max_queries");
    push_text(fields, "entry_size_bytes");
    push_text(fields, "hints_bytes_total");
    push_text(fields, "hints_bytes_per_group");
    push_text(fields, "request_bytes_total");
    push_text(fields, "request_bytes_per_group");
    push_text(fields, "response_bytes_total");
    push_text(fields, "response_bytes_per_group");
    push_text(fields, "state_setup_s");
    push_text(fields, "request_build_s");
    push_text(fields, "server_response_s");
    push_text(fields, "response_process_s");
    push_text(fields, "total_online_s");
    push_text(fields, "verified_queries");
    push_text(fields, "failures");
    push_text(fields, "artifact_bytes");
    push_text(fields, "hint_generation_s");
    push_text(fields, "checksum");
    push_text(fields, "cache_state");
    assert(field_views(fields@) =~= columns(Tool::HarmonyOnline));
}

fn merkle_columns(fields: &mut Vec<String>)
    requires
        old(fields)@.len() == 0,
    ensures
        field_views(final(fields)@) == columns(Tool::MerkleRound),
{
    push_text(fields, "database");
    push_text(fields, "kind");
    push_text(fields, "level");
    push_text(fields, "trial");
    push_text(fields, "path");
    push_text(fields, "k");
    push_text(fields, "bins_per_table");
    push_text(fields, "arity");
    push_text(fields, "sibling_levels");
    push_text(fields, "tree_top_bytes");
    push_text(fields, "sibling_bytes_total");
    push_text(fields, "file_bytes");
    push_text(fields, "upload_per_server_bytes");
    push_text(fields, "download_per_server_bytes");
    push_text(fields, "keygen_s");
    push_text(fields, "server0_s");
    push_text(fields, "server1_s");
    push_text(fields, "server_parallel_s");
    push_text(fields, "server0_dpf_eval_sum_s");
    push_text(fields, "server1_dpf_eval_sum_s");
    push_text(fields, "server0_fetch_xor_sum_s");
    push_text(fields, "server1_fetch_xor_sum_s");
    push_text(fields, "client_verify_s");
    push_text(fields, "total_parallel_s");
    push_text(fields, "verified_groups");
    push_text(fields, "verification_failures");
    push_text(fields, "checksum");
    push_text(fields, "cache_state");
    assert(field_views(fields@) =~= columns(Tool::MerkleRound));
}

/// The first line of a runner's output: the names of its columns.
pub fn header_line(tool: Tool) -> (r: String)
    ensures
        r@ == line_of(columns(tool)),
{
    let mut fields: Vec<String> = Vec::new();
    match tool {
        Tool::DpfRound => dpf_columns(&mut fields),
        Tool::HarmonyHint => hint_columns(&mut fields),
        Tool::HarmonyOnline => online_columns(&mut fields),
        Tool::MerkleRound => merkle_columns(&mut fields),
    }
    join_fields(&fields)
}

/// What a row starts with.
#[derive(Clone, Copy)]
pub struct RowLabel<'a> {
    pub database: &'a str,
    pub kind: &'a str,
    pub level: Level,
    pub trial: usize,
    pub path: &'a str,
}

/// The decimal digits of `n`.
pub open spec fn num(n: usize) -> Seq<char> {
    decimal_digits(n as nat)
}

/// The state of the page cache that the runners measure in.
pub open spec fn cache_state() -> Seq<char> {
    "warm-cache"@
}

/// `text` is what `render` makes of `time`.
pub open spec fn text_of<R: Fn(u128) -> String>(render: R, time: u128, text: Seq<char>) -> bool {
    exists|s: String| #[trigger] call_ensures(render, (time,), s) && s@ == text
}

/// `texts` are what `render` makes of `times`.
pub open spec fn texts_of<R: Fn(u128) -> String>(
    render: R,
    times: Seq<u128>,
    texts: Seq<Seq<char>>,
) -> bool {
    &&& texts.len() == times.len()
    &&& forall|i: int| 0 <= i < times.len() ==> text_of(render, times[i], #[trigger] texts[i])
}

/// `render` can be asked for the text of every one of `times`.
pub open spec fn renders<R: Fn(u128) -> String>(render: R, times: Seq<u128>) -> bool {
    forall|i: int| 0 <= i < times.len() ==> call_requires(render, (#[trigger] times[i],))
}

/// What `render` makes of `times`.
fn render_times<R: Fn(u128) -> String>(times: &Vec<u128>, render: &R) -> (r: Vec<String>)
    requires
        renders(*render, times@),
    ensures
        texts_of(*render, times@, field_views(r@)),
{
    let n: usize = times.len();
    let mut out: Vec<String> = Vec::new();
    let mut i: usize = 0;
    while i < n
        invariant
            i <= n,
            n == times@.len(),
            renders(*render, times@),
            texts_of(*render, times@.take(i as int), field_views(out@)),
        decreases n - i,
    {
        let ghost before = field_views(out@);
        assert(call_requires(*render, (times@[i as int],)));
        let text: String = render(times[i]);
        out.push(text);
        assert(text_of(*render, times@[i as int], text@));
        assert(field_views(out@) =~= before.push(text@));
        assert forall|j: int| 0 <= j < i + 1 implies text_of(
            *render,
            times@.take(i + 1)[j],
            #[trigger] field_views(out@)[j],
        ) by {
            if j < i {
                assert(times@.take(i as int)[j] == times@[j]);
                assert(text_of(*render, times@.take(i as int)[j], before[j]));
            }
        }
        i = i + 1;
    }
    assert(times@.take(n as int) =~= times@);
    out
}

/// The times of a row of the two-server round, in the order of their columns.
pub open spec fn round_times(report: RoundReport) -> Seq<u128> {
    seq![
        report.keygen,
        report.s0.wall,
        report.s1.wall,
        report.summary.server_parallel,
        report.summary.server_sequential,
        report.s0.dpf_sum,
        report.s1.dpf_sum,
        report.s0.fetch_sum,
        report.s1.fetch_sum,
        report.verify_wall,
        report.summary.total_parallel,
        report.summary.total_local_sequential,
    ]
}

/// The fields of a row of the two-server round over a file of tables with the layout `l`, where
/// `seconds` are the texts of `round_times`.
pub open spec fn round_fields(
    label: RowLabel<'_>,
    l: TableLayout,
    dpf_n: u8,
    report: RoundReport,
    seconds: Seq<Seq<char>>,
) -> Seq<Seq<char>> {
    seq![
        label.database@,
        label.kind@,
        label.level.name(),
        num(label.trial),
        label.path@,
        num(l.k),
        num(l.bins_per_table),
        num(dpf_n as usize),
        num(l.file_bytes),
        num(report.summary.body_bytes),
        num(l.result_size),
        num(report.summary.key_size),
        num(report.summary.upload_per_server),
        num(report.summary.download_per_server),
    ] + seconds + seq![
        num(report.summary.verified_queries),
        num(report.verdict.failures),
        hex_digits(report.summary.checksum as nat, 16),
        cache_state(),
    ]
}

/// The row of a trial of the two-server round; `render` makes the texts of its times.
pub fn round_report_row<R: Fn(u128) -> String>(
    label: &RowLabel<'_>,
    l: &TableLayout,
    dpf_n: u8,
    report: &RoundReport,
    render: &R,
) -> (r: String)
    requires
        renders(*render, round_times(*report)),
    ensures
        exists|seconds: Seq<Seq<char>>| #[trigger]
            texts_of(*render, round_times(*report), seconds) && r@ == line_of(
                round_fields(*label, *l, dpf_n, *report, seconds),
            ),
{
    let summary = &report.summary;
    let times: Vec<u128> = vec![
        report.keygen,
        report.s0.wall,
        report.s1.wall,
        summary.server_parallel,
        summary.server_sequential,
        report.s0.dpf_sum,
        report.s1.dpf_sum,
        report.s0.fetch_sum,
        report.s1.fetch_sum,
        report.verify_wall,
        summary.total_parallel,
        summary.total_local_sequential,
    ];
    assert(times@ =~= round_times(*report));
    let seconds = render_times(&times, render);
    let mut fields: Vec<String> = Vec::new();
    assert(field_views(fields@) =~= Seq::empty());
    push_text(&mut fields, label.database);
    push_text(&mut fields, label.kind);
    push_text(&mut fields, label.level.as_str());
    push_number(&mut fields, label.trial);
    push_text(&mut fields, label.path);
    push_number(&mut fields, l.k);
    push_number(&mut fields, l.bins_per_table);
    push_number(&mut fields, dpf_n as usize);
    push_number(&mut fields, l.file_bytes);
    push_number(&mut fields, summary.body_bytes);
    push_number(&mut fields, l.result_size);
    push_number(&mut fields, summary.key_size);
    push_number(&mut fields, summary.upload_per_server);
    push_number(&mut fields, summary.download_per_server);
    push_all(&mut fields, &seconds);
    push_number(&mut fields, summary.verified_queries);
    push_number(&mut fields, report.verdict.failures);
    push_text(&mut fields, hex16(summary.checksum).as_str());
    push_text(&mut fields, "warm-cache");
    assert(field_views(fields@) =~= round_fields(
        *label,
        *l,
        dpf_n,
        *report,
        field_views(seconds@),
    ));
    join_fields(&fields)
}

/// The fields that the rows of both phases of the hint protocol start with.
pub open spec fn hint_head(
    label: RowLabel<'_>,
    backend: Backend,
    hp: HintParams,
    max_queries: usize,
) -> Seq<Seq<char>> {
    seq![
        label.database@,
        label.kind@,
        label.level.name(),
        backend.name(),
        num(label.trial),
        label.path@,
        num(hp.k),
        num(hp.bins_per_table),
        num(hp.padded_n),
        num(hp.t),
        num(hp.m),
        num(max_queries),
        num(hp.entry_size),
    ]
}

/// Adds the fields that the rows of both phases of the hint protocol start with.
fn push_hint_head(
    fields: &mut Vec<String>,
    label: &RowLabel<'_>,
    backend: Backend,
    hp: &HintParams,
    max_queries: usize,
)
    requires
        old(fields)@.len() == 0,
    ensures
        field_views(final(fields)@) == hint_head(*label, backend, *hp, max_queries),
{
    push_text(fields, label.database);
    push_text(fields, label.kind);
    push_text(fields, label.level.as_str());
    push_text(fields, backend.as_str());
    push_number(fields, label.trial);
    push_text(fields, label.path);
    push_number(fields, hp.k);
    push_number(fields, hp.bins_per_table);
    push_number(fields, hp.padded_n);
    push_number(fields, hp.t);
    push_number(fields, hp.m);
    push_number(fields, max_queries);
    push_number(fields, hp.entry_size);
    assert(field_views(fields@) =~= hint_head(*label, backend, *hp, max_queries));
}

/// The fields of a row of hint generation, where `generation` is the text of its time.
pub open spec fn hint_fields(
    label: RowLabel<'_>,
    backend: Backend,
    ids: BackendIds,
    hp: HintParams,
    run: HintRun,
    artifact_bytes: usize,
    generation: Seq<char>,
) -> Seq<Seq<char>> {
    let summary = hint_summary(hp, run, backend, ids);
    hint_head(label, backend, hp, summary.max_queries) + seq![
        num(run.hints_bytes),
        num(summary.hints_per_group),
        num(summary.request_bytes),
        num(summary.response_bytes),
        num(artifact_bytes),
        generation,
        hex_digits(summary.checksum as nat, 16),
        cache_state(),
    ]
}

/// The row of a trial of hint generation; `render` makes the text of its time.
pub fn hint_report_row<R: Fn(u128) -> String>(
    label: &RowLabel<'_>,
    backend: Backend,
    ids: &BackendIds,
    hp: &HintParams,
    run: &HintRun,
    artifact_bytes: usize,
    render: &R,
) -> (r: String)
    requires
        hint_sizes_fit(*hp),
        call_requires(*render, (run.wall,)),
    ensures
        exists|generation: Seq<char>| #[trigger]
            text_of(*render, run.wall, generation) && r@ == line_of(
                hint_fields(*label, backend, *ids, *hp, *run, artifact_bytes, generation),
            ),
{
    let summary = summarize_hints(hp, run, backend, ids);
    let generation: String = render(run.wall);
    let mut fields: Vec<String> = Vec::new();
    push_hint_head(&mut fields, label, backend, hp, summary.max_queries);
    push_number(&mut fields, run.hints_bytes);
    push_number(&mut fields, summary.hints_per_group);
    push_number(&mut fields, summary.request_bytes);
    push_number(&mut fields, summary.response_bytes);
    push_number(&mut fields, artifact_bytes);
    push_text(&mut fields, generation.as_str());
    push_text(&mut fields, hex16(summary.checksum).as_str());
    push_text(&mut fields, "warm-cache");
    assert(field_views(fields@) =~= hint_fields(
        *label,
        backend,
        *ids,
        *hp,
        *run,
        artifact_bytes,
        generation@,
    ));
    assert(text_of(*render, run.wall, generation@));
    join_fields(&fields)
}

/// The times of a row of the online phase, in the order of their columns; that of hint generation
/// is the last.
pub open spec fn online_times(run: OnlineRun, total_online: u128, generation: u128) -> Seq<u128> {
    seq![
        run.state_setup,
        run.request_build,
        run.server_response,
        run.response_process,
        total_online,
        generation,
    ]
}

/// The fields of a row of the online phase, where `seconds` are the texts of `online_times`.
pub open spec fn online_fields(
    label: RowLabel<'_>,
    backend: Backend,
    hp: HintParams,
    run: OnlineRun,
    summary: OnlineSummary,
    artifact_bytes: usize,
    seconds: Seq<Seq<char>>,
) -> Seq<Seq<char>> {
    hint_head(label, backend, hp, hp.max_queries) + seq![
        num(summary.hints_bytes_total),
        num(summary.hints_bytes_per_group),
        num(summary.request_bytes_total),
        num(summary.request_bytes_per_group),
        num(summary.response_bytes_total),
        num(summary.response_bytes_per_group),
        seconds[0],
        seconds[1],
        seconds[2],
        seconds[3],
        seconds[4],
        num(summary.verified_queries),
        num(run.verdict.failures),
        num(artifact_bytes),
        seconds[5],
        hex_digits(summary.checksum as nat, 16),
        cache_state(),
    ]
}

/// The row of an online trial with the hints `bundle`; `render` makes the texts of its times.
pub fn online_report_row<R: Fn(u128) -> String>(
    label: &RowLabel<'_>,
    backend: Backend,
    ids: &BackendIds,
    hp: &HintParams,
    bundle: &HintBundle,
    run: &OnlineRun,
    artifact_bytes: usize,
    render: &R,
) -> (r: String)
    requires
        online_sizes_fit(*hp, *bundle, *run),
        renders(
            *render,
            online_times(
                *run,
                online_summary(*hp, *bundle, *run, backend, *ids).total_online,
                bundle.generation,
            ),
        ),
    ensures
        exists|seconds: Seq<Seq<char>>| #[trigger]
            texts_of(
                *render,
                online_times(
                    *run,
                    online_summary(*hp, *bundle, *run, backend, *ids).total_online,
                    bundle.generation,
                ),
                seconds,
            ) && r@ == line_of(
                online_fields(
                    *label,
                    backend,
                    *hp,
                    *run,
                    online_summary(*hp, *bundle, *run, backend, *ids),
                    artifact_bytes,
                    seconds,
                ),
            ),
{
    let summary = summarize_online(hp, bundle, run, backend, ids);
    let times: Vec<u128> = vec![
        run.state_setup,
        run.request_build,
        run.server_response,
        run.response_process,
        summary.total_online,
        bundle.generation,
    ];
    assert(times@ =~= online_times(*run, summary.total_online, bundle.generation));
    let seconds = render_times(&times, render);
    assert(field_views(seconds@).len() == 6);
    let mut fields: Vec<String> = Vec::new();
    push_hint_head(&mut fields, label, backend, hp, hp.max_queries);
    push_number(&mut fields, summary.hints_bytes_total);
    push_number(&mut fields, summary.hints_bytes_per_group);
    push_number(&mut fields, summary.request_bytes_total);
    push_number(&mut fields, summary.request_bytes_per_group);
    push_number(&mut fields, summary.response_bytes_total);
    push_number(&mut fields, summary.response_bytes_per_group);
    push_text(&mut fields, seconds[0].as_str());
    push_text(&mut fields, seconds[1].as_str());
    push_text(&mut fields, seconds[2].as_str());
    push_text(&mut fields, seconds[3].as_str());
    push_text(&mut fields, seconds[4].as_str());
    push_number(&mut fields, summary.verified_queries);
    push_number(&mut fields, run.verdict.failures);
    push_number(&mut fields, artifact_bytes);
    push_text(&mut fields, seconds[5].as_str());
    push_text(&mut fields, hex16(summary.checksum).as_str());
    push_text(&mut fields, "warm-cache");
    assert(field_views(fields@) =~= online_fields(
        *label,
        backend,
        *hp,
        *run,
        summary,
        artifact_bytes,
        field_views(seconds@),
    ));
    join_fields(&fields)
}

/// The times of a row of the Merkle round, in the order of their columns.
pub open spec fn merkle_times(report: MerkleReport) -> Seq<u128> {
    seq![
        report.keygen,
        report.s0.wall,
        report.s1.wall,
        report.summary.server_parallel,
        report.s0.dpf_sum,
        report.s1.dpf_sum,
        report.s0.fetch_sum,
        report.s1.fetch_sum,
        report.verify_wall,
        report.summary.total_parallel,
    ]
}

/// The fields of a row of the Merkle round over the files with the layouts `data` and `siblings`,
/// where `seconds` are the texts of `merkle_times`.
pub open spec fn merkle_fields(
    label: RowLabel<'_>,
    data: TableLayout,
    siblings: Seq<TableLayout>,
    tree_top_bytes: usize,
    report: MerkleReport,
    seconds: Seq<Seq<char>>,
) -> Seq<Seq<char>> {
    let bytes = artifact_size(data, siblings, tree_top_bytes);
    seq![
        label.database@,
        label.kind@,
        label.level.name(),
        num(label.trial),
        label.path@,
        num(data.k),
        num(data.bins_per_table),
        num(MERKLE_ARITY),
        num(siblings.len() as usize),
        num(tree_top_bytes),
        num(bytes.sibling_bytes_total),
        num(bytes.file_bytes),
        num(report.upload_per_server),
        num(report.summary.download_per_server),
    ] + seconds + seq![
        num(report.summary.verified_groups),
        num(report.verdict.failures),
        hex_digits(report.summary.checksum as nat, 16),
        cache_state(),
    ]
}

/// The row of a trial of the Merkle round; `render` makes the texts of its times.
pub fn merkle_report_row<R: Fn(u128) -> String>(
    label: &RowLabel<'_>,
    data: &TableLayout,
    siblings: &Vec<TableLayout>,
    tree_top_bytes: usize,
    report: &MerkleReport,
    render: &R,
) -> (r: String)
    requires
        data.file_bytes + sibling_bytes(siblings@) + tree_top_bytes <= usize::MAX,
        renders(*render, merkle_times(*report)),
    ensures
        exists|seconds: Seq<Seq<char>>| #[trigger]
            texts_of(*render, merkle_times(*report), seconds) && r@ == line_of(
                merkle_fields(*label, *data, siblings@, tree_top_bytes, *report, seconds),
            ),
{
    let bytes = artifact_bytes(data, siblings, tree_top_bytes);
    let summary = &report.summary;
    let times: Vec<u128> = vec![
        report.keygen,
        report.s0.wall,
        report.s1.wall,
        summary.server_parallel,
        report.s0.dpf_sum,
        report.s1.dpf_sum,
        report.s0.fetch_sum,
        report.s1.fetch_sum,
        report.verify_wall,
        summary.total_parallel,
    ];
    assert(times@ =~= merkle_times(*report));
    let seconds = render_times(&times, render);
    let mut fields: Vec<String> = Vec::new();
    assert(field_views(fields@) =~= Seq::empty());
    push_text(&mut fields, label.database);
    push_text(&mut fields, label.kind);
    push_text(&mut fields, label.level.as_str());
    push_number(&mut fields, label.trial);
    push_text(&mut fields, label.path);
    push_number(&mut fields, data.k);
    push_number(&mut fields, data.bins_per_table);
    push_number(&mut fields, MERKLE_ARITY);
    push_number(&mut fields, siblings.len());
    push_number(&mut fields, tree_top_bytes);
    push_number(&mut fields, bytes.sibling_bytes_total);
    push_number(&mut fields, bytes.file_bytes);
    push_number(&mut fields, report.upload_per_server);
    push_number(&mut fields, summary.download_per_server);
    push_all(&mut fields, &seconds);
    push_number(&mut fields, summary.verified_groups);
    push_number(&mut fields, report.verdict.failures);
    push_text(&mut fields, hex16(summary.checksum).as_str());
    push_text(&mut fields, "warm-cache");
    assert(field_views(fields@) =~= merkle_fields(
        *label,
        *data,
        siblings@,
        tree_top_bytes,
        *report,
        field_views(seconds@),
    ));
    join_fields(&fields)
}

/// A row of the two-server round has as many fields as the header has columns.
pub proof fn law_round_row_fits_header(
    label: RowLabel<'_>,
    l: TableLayout,
    dpf_n: u8,
    report: RoundReport,
    seconds: Seq<Seq<char>>,
)
    requires
        seconds.len() == round_times(report).len(),
    ensures
        round_fields(label, l, dpf_n, report, seconds).len() == columns(Tool::DpfRound).len(),
{
}

/// A row of hint generation has as many fields as the header has columns.
pub proof fn law_hint_row_fits_header(
    label: RowLabel<'_>,
    backend: Backend,
    ids: BackendIds,
    hp: HintParams,
    run: HintRun,
    artifact_bytes: usize,
    generation: Seq<char>,
)
    ensures
        hint_fields(label, backend, ids, hp, run, artifact_bytes, generation).len() == columns(
            Tool::HarmonyHint,
        ).len(),
{
}

/// A row of the online phase has as many fields as the header has columns.
pub proof fn law_online_row_fits_header(
    label: RowLabel<'_>,
    backend: Backend,
    hp: HintParams,
    run: OnlineRun,
    summary: OnlineSummary,
    artifact_bytes: usize,
    seconds: Seq<Seq<char>>,
)
    ensures
        online_fields(label, backend, hp, run, summary, artifact_bytes, seconds).len() == columns(
            Tool::HarmonyOnline,
        ).len(),
{
}

/// A row of the Merkle round has as many fields as the header has columns.
pub proof fn law_merkle_row_fits_header(
    label: RowLabel<'_>,
    data: TableLayout,
    siblings: Seq<TableLayout>,
    tree_top_bytes: usize,
    report: MerkleReport,
    seconds: Seq<Seq<char>>,
)
    requires
        seconds.len() == merkle_times(report).len(),
    ensures
        merkle_fields(label, data, siblings, tree_top_bytes, report, seconds).len() == columns(
            Tool::MerkleRound,
        ).len(),
{
}

} // verus!
