use pir_bench::layout::{
    bin_slice, entry_slice, table_layout, table_slice, LayoutError, TableLayout,
};

#[test]
fn layout_of_a_file() {
    let expected = TableLayout {
        header_size: 4,
        k: 3,
        bins_per_table: 5,
        result_size: 2,
        table_byte_size: 10,
        file_bytes: 40,
    };
    assert_eq!(table_layout(40, 4, 3, 5, 2), Ok(expected));
    assert_eq!(table_layout(34, 4, 3, 5, 2), Ok(TableLayout { file_bytes: 34, ..expected }));
}

#[test]
fn file_that_is_too_short() {
    assert_eq!(
        table_layout(33, 4, 3, 5, 2),
        Err(LayoutError::TooShort { got: 33, expected: 34 })
    );
    assert_eq!(table_layout(3, 4, 0, 5, 2), Err(LayoutError::TooShort { got: 3, expected: 4 }));
}

#[test]
fn sizes_that_overflow() {
    assert_eq!(table_layout(100, 0, 1, usize::MAX, 2), Err(LayoutError::SizeOverflow));
    assert_eq!(table_layout(100, 0, 3, usize::MAX / 2, 1), Err(LayoutError::SizeOverflow));
    assert_eq!(table_layout(100, 2, 1, usize::MAX - 1, 1), Err(LayoutError::SizeOverflow));
    assert_eq!(table_layout(100, 0, 0, usize::MAX, 2), Err(LayoutError::SizeOverflow));
}

#[test]
fn tables_and_bins_of_a_file() {
    let data: Vec<u8> = (0..34).collect();
    assert_eq!(table_slice(&data, 4, 10, 0), &data[4..14]);
    assert_eq!(table_slice(&data, 4, 10, 2), &data[24..34]);
    assert_eq!(bin_slice(&data, 4, 10, 2, 2, 4), &[32, 33]);
    assert_eq!(entry_slice(table_slice(&data, 4, 10, 2), 2, 4), &[32, 33]);
}

#[test]
fn bins_share_no_byte_and_fill_the_tables() {
    let data: Vec<u8> = (0..34).collect();
    let mut seen = Vec::new();
    for group in 0..3 {
        for bin in 0..5 {
            let content = bin_slice(&data, 4, 10, 2, group, bin);
            assert_eq!(content, entry_slice(table_slice(&data, 4, 10, group), 2, bin));
            seen.extend_from_slice(content);
        }
    }
    assert_eq!(seen, data[4..].to_vec());
}
