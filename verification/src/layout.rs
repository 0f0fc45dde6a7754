//! Where the tables of a file and the bins of a table lie.
use vstd::prelude::*;
use vstd::slice::slice_subrange;

verus! {

/// The layout of a file of tables: a header, then one table per group, each made of bins of one
/// size.
#[derive(Clone, Copy, Debug, PartialEq, Eq, Structural)]
pub struct TableLayout {
    pub header_size: usize,
    pub k: usize,
    pub bins_per_table: usize,
    pub result_size: usize,
    pub table_byte_size: usize,
    pub file_bytes: usize,
}

/// Why a file of tables cannot be used.
#[derive(Clone, Copy, Debug, PartialEq, Eq, Structural)]
pub enum LayoutError {
    /// The file ends before its last table does.
    TooShort { got: usize, expected: usize },
    /// The size that the file would have to have is not a machine word.
    SizeOverflow,
}

/// The bytes of one table of `bins_per_table` bins.
pub open spec fn table_size(bins_per_table: usize, result_size: usize) -> nat {
    (bins_per_table * result_size) as nat
}

/// The bytes of a header and `k` tables.
pub open spec fn file_size(
    header_size: usize,
    k: usize,
    bins_per_table: usize,
    result_size: usize,
) -> nat {
    header_size as nat + k as nat * table_size(bins_per_table, result_size)
}

/// Where the table of `group` starts.
pub open spec fn table_start(header_size: usize, table_byte_size: usize, group: int) -> int {
    header_size + group * table_byte_size
}

/// Where a bin of the table of `group` starts.
pub open spec fn bin_start(
    header_size: usize,
    table_byte_size: usize,
    result_size: usize,
    group: int,
    bin: int,
) -> int {
    table_start(header_size, table_byte_size, group) + bin * result_size
}

/// The table of `group`.
pub open spec fn table_at(
    data: Seq<u8>,
    header_size: usize,
    table_byte_size: usize,
    group: int,
) -> Seq<u8> {
    let start = table_start(header_size, table_byte_size, group);
    data.subrange(start, start + table_byte_size)
}

/// A bin of the table of `group`.
pub open spec fn bin_at(
    data: Seq<u8>,
    header_size: usize,
    table_byte_size: usize,
    result_size: usize,
    group: int,
    bin: int,
) -> Seq<u8> {
    let start = bin_start(header_size, table_byte_size, result_size, group, bin);
    data.subrange(start, start + result_size)
}

/// Entry `i` of a table whose entries have `entry_size` bytes.
pub open spec fn entry_at(table: Seq<u8>, entry_size: usize, i: int) -> Seq<u8> {
    table.subrange(i * entry_size, i * entry_size + entry_size)
}

impl TableLayout {
    /// The tables are as large as their bins, and the file holds all of them.
    pub open spec fn wf(self) -> bool {
        &&& self.table_byte_size == table_size(self.bins_per_table, self.result_size)
        &&& file_size(self.header_size, self.k, self.bins_per_table, self.result_size)
            <= self.file_bytes
    }

    /// The table of `group`.
    pub open spec fn table(self, data: Seq<u8>, group: int) -> Seq<u8> {
        table_at(data, self.header_size, self.table_byte_size, group)
    }
}

/// Every table of a well-formed layout lies in the file, and so does every bin of it.
pub proof fn law_layout_covers(l: TableLayout, group: int, bin: int)
    requires
        l.wf(),
        0 <= group < l.k,
        0 <= bin < l.bins_per_table,
    ensures
        0 <= table_start(l.header_size, l.table_byte_size, group),
        table_start(l.header_size, l.table_byte_size, group) + l.table_byte_size <= l.file_bytes,
        table_start(l.header_size, l.table_byte_size, group) <= bin_start(
            l.header_size,
            l.table_byte_size,
            l.result_size,
            group,
            bin,
        ),
        bin_start(l.header_size, l.table_byte_size, l.result_size, group, bin) + l.result_size
            <= table_start(l.header_size, l.table_byte_size, group) + l.table_byte_size,
{
    lemma_table_in_file(l, group);
    let b = l.bins_per_table as int;
    let s = l.result_size as int;
    assert(0 <= bin * s && bin * s + s <= b * s) by (nonlinear_arith)
        requires
            0 <= bin < b,
            0 <= s,
    ;
}

pub(crate) proof fn lemma_table_in_file(l: TableLayout, group: int)
    requires
        l.wf(),
        0 <= group < l.k,
    ensures
        0 <= table_start(l.header_size, l.table_byte_size, group),
        table_start(l.header_size, l.table_byte_size, group) + l.table_byte_size <= l.file_bytes,
{
    let t = l.table_byte_size as int;
    let k = l.k as int;
    assert(0 <= group * t && group * t + t <= k * t) by (nonlinear_arith)
        requires
            0 <= group < k,
            0 <= t,
    ;
}

/// A bin of the file is the entry of its group's table with the same number.
pub proof fn law_bin_is_table_entry(l: TableLayout, data: Seq<u8>, group: int, bin: int)
    requires
        l.wf(),
        data.len() == l.file_bytes,
        0 <= group < l.k,
        0 <= bin < l.bins_per_table,
    ensures
        bin_at(data, l.header_size, l.table_byte_size, l.result_size, group, bin) == entry_at(
            table_at(data, l.header_size, l.table_byte_size, group),
            l.result_size,
            bin,
        ),
{
    law_layout_covers(l, group, bin);
    assert(bin_at(data, l.header_size, l.table_byte_size, l.result_size, group, bin) =~= entry_at(
        table_at(data, l.header_size, l.table_byte_size, group),
        l.result_size,
        bin,
    ));
}

/// Different bins of a file share no byte.
pub proof fn law_bins_disjoint(l: TableLayout, g1: int, b1: int, g2: int, b2: int)
    requires
        l.wf(),
        0 <= g1 < l.k,
        0 <= g2 < l.k,
        0 <= b1 < l.bins_per_table,
        0 <= b2 < l.bins_per_table,
        g1 < g2 || (g1 == g2 && b1 < b2),
    ensures
        bin_start(l.header_size, l.table_byte_size, l.result_size, g1, b1) + l.result_size
            <= bin_start(l.header_size, l.table_byte_size, l.result_size, g2, b2),
{
    law_layout_covers(l, g1, b1);
    law_layout_covers(l, g2, b2);
    let s = l.result_size as int;
    let t = l.table_byte_size as int;
    if g1 < g2 {
        assert(g1 * t + t <= g2 * t) by (nonlinear_arith)
            requires
                g1 < g2,
                0 <= t,
        ;
    } else {
        assert(b1 * s + s <= b2 * s) by (nonlinear_arith)
            requires
                b1 < b2,
                0 <= s,
        ;
    }
}

/// Works out the layout of a file of `file_bytes` bytes, and refuses a file that is too short for
/// its tables.
pub fn table_layout(
    file_bytes: usize,
    header_size: usize,
    k: usize,
    bins_per_table: usize,
    result_size: usize,
) -> (r: Result<TableLayout, LayoutError>)
    ensures
        ({
            let table = table_size(bins_per_table, result_size);
            let needed = file_size(header_size, k, bins_per_table, result_size);
            if table > usize::MAX || needed > usize::MAX {
                r == Err::<TableLayout, LayoutError>(LayoutError::SizeOverflow)
            } else if file_bytes < needed {
                r == Err::<TableLayout, LayoutError>(
                    LayoutError::TooShort { got: file_bytes, expected: needed as usize },
                )
            } else {
                r == Ok::<TableLayout, LayoutError>(
                    TableLayout {
                        header_size,
                        k,
                        bins_per_table,
                        result_size,
                        table_byte_size: table as usize,
                        file_bytes,
                    },
                ) && r->Ok_0.wf()
            }
        }),
{
    match bins_per_table.checked_mul(result_size) {
        None => Err(LayoutError::SizeOverflow),
        Some(table_byte_size) => {
            match k.checked_mul(table_byte_size) {
                None => Err(LayoutError::SizeOverflow),
                Some(body) => {
                    match header_size.checked_add(body) {
                        None => Err(LayoutError::SizeOverflow),
                        Some(expected) => {
                            if file_bytes < expected {
                                Err(LayoutError::TooShort { got: file_bytes, expected })
                            } else {
                                Ok(
                                    TableLayout {
                                        header_size,
                                        k,
                                        bins_per_table,
                                        result_size,
                                        table_byte_size,
                                        file_bytes,
                                    },
                                )
                            }
                        },
                    }
                },
            }
        },
    }
}

/// The table of `group`.
pub fn table_slice<'a>(
    data: &'a [u8],
    header_size: usize,
    table_byte_size: usize,
    group: usize,
) -> (r: &'a [u8])
    requires
        table_start(header_size, table_byte_size, group as int) + table_byte_size <= data@.len(),
    ensures
        r@ == table_at(data@, header_size, table_byte_size, group as int),
{
    let n: usize = data.len();
    assert(0 <= group * table_byte_size) by (nonlinear_arith);
    let start: usize = header_size + group * table_byte_size;
    slice_subrange(data, start, start + table_byte_size)
}

/// A bin of the table of `group`.
pub fn bin_slice<'a>(
    data: &'a [u8],
    header_size: usize,
    table_byte_size: usize,
    result_size: usize,
    group: usize,
    bin: usize,
) -> (r: &'a [u8])
    requires
        bin_start(header_size, table_byte_size, result_size, group as int, bin as int)
            + result_size <= data@.len(),
    ensures
        r@ == bin_at(
            data@,
            header_size,
            table_byte_size,
            result_size,
            group as int,
            bin as int,
        ),
{
    let n: usize = data.len();
    assert(0 <= group * table_byte_size) by (nonlinear_arith);
    assert(0 <= bin * result_size) by (nonlinear_arith);
    let start: usize = header_size + group * table_byte_size + bin * result_size;
    slice_subrange(data, start, start + result_size)
}

/// Entry `i` of a table whose entries have `entry_size` bytes.
pub fn entry_slice<'a>(table: &'a [u8], entry_size: usize, i: usize) -> (r: &'a [u8])
    requires
        i * entry_size + entry_size <= table@.len(),
    ensures
        r@ == entry_at(table@, entry_size, i as int),
{
    let n: usize = table.len();
    assert(0 <= i * entry_size) by (nonlinear_arith);
    let start: usize = i * entry_size;
    slice_subrange(table, start, start + entry_size)
}

} // verus!
