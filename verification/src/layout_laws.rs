//! Which bytes of a file the tables, bins and entries are.
#[allow(unused_imports)]
use crate::layout::{
    bin_at, bin_start, entry_at, file_size, table_at, table_size, table_start, TableLayout,
};
use vstd::prelude::*;

verus! {

/// A table of a file starts behind the header and the tables of the groups before, and a bin
/// behind the bins before it.
pub proof fn law_tables_and_bins_start(
    header_size: usize,
    table_byte_size: usize,
    result_size: usize,
    group: int,
    bin: int,
)
    ensures
        table_start(header_size, table_byte_size, group) == header_size + group * table_byte_size,
        bin_start(header_size, table_byte_size, result_size, group, bin) == header_size + group
            * table_byte_size + bin * result_size,
{
}

/// The bytes of a table are those of the file from the table's start on.
pub proof fn law_table_bytes(data: Seq<u8>, header_size: usize, table_byte_size: usize, group: int)
    requires
        0 <= group,
        header_size + group * table_byte_size + table_byte_size <= data.len(),
    ensures
        table_at(data, header_size, table_byte_size, group).len() == table_byte_size,
        forall|j: int|
            0 <= j < table_byte_size ==> #[trigger] table_at(
                data,
                header_size,
                table_byte_size,
                group,
            )[j] == data[header_size + group * table_byte_size + j],
{
    assert(0 <= group * table_byte_size) by (nonlinear_arith)
        requires
            0 <= group,
    ;
}

/// The bytes of a bin are those of the file from the bin's start on.
pub proof fn law_bin_bytes(
    data: Seq<u8>,
    header_size: usize,
    table_byte_size: usize,
    result_size: usize,
    group: int,
    bin: int,
)
    requires
        0 <= group,
        0 <= bin,
        header_size + group * table_byte_size + bin * result_size + result_size <= data.len(),
    ensures
        bin_at(data, header_size, table_byte_size, result_size, group, bin).len() == result_size,
        forall|j: int|
            0 <= j < result_size ==> #[trigger] bin_at(
                data,
                header_size,
                table_byte_size,
                result_size,
                group,
                bin,
            )[j] == data[header_size + group * table_byte_size + bin * result_size + j],
{
    assert(0 <= group * table_byte_size) by (nonlinear_arith)
        requires
            0 <= group,
    ;
    assert(0 <= bin * result_size) by (nonlinear_arith)
        requires
            0 <= bin,
    ;
}

/// The bytes of an entry are those of its table behind the entries before it.
pub proof fn law_entry_bytes(table: Seq<u8>, entry_size: usize, i: int)
    requires
        0 <= i,
        i * entry_size + entry_size <= table.len(),
    ensures
        entry_at(table, entry_size, i).len() == entry_size,
        forall|j: int|
            0 <= j < entry_size ==> #[trigger] entry_at(table, entry_size, i)[j] == table[i
                * entry_size + j],
{
    assert(0 <= i * entry_size) by (nonlinear_arith)
        requires
            0 <= i,
    ;
}

/// A file of tables is as long as its header and all bins of all groups, and a layout is in order
/// exactly where its tables are as large as their bins and the file holds all of them.
pub proof fn law_file_sizes(l: TableLayout)
    ensures
        table_size(l.bins_per_table, l.result_size) == l.bins_per_table * l.result_size,
        file_size(l.header_size, l.k, l.bins_per_table, l.result_size) == l.header_size + l.k * (
        l.bins_per_table * l.result_size),
        l.wf() <==> l.table_byte_size == l.bins_per_table * l.result_size && l.header_size + l.k
            * l.table_byte_size <= l.file_bytes,
{
    assert(0 <= l.bins_per_table * l.result_size) by (nonlinear_arith);
}

/// The table of a group of a layout is the table that starts there.
pub proof fn law_layout_table(l: TableLayout, data: Seq<u8>, group: int)
    ensures
        l.table(data, group) == table_at(data, l.header_size, l.table_byte_size, group),
{
}

} // verus!
