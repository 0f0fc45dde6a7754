use pir_bench::kinds::{
    sibling_params, Backend, BackendIds, Level, LevelParams, TableParams, MERKLE_ARITY,
    MERKLE_ROW_SIZE,
};

fn table(k: usize, slot_size: usize) -> TableParams {
    TableParams {
        k,
        num_hashes: 3,
        master_seed: 5,
        slots_per_bin: 4,
        cuckoo_num_hashes: 2,
        slot_size,
        dpf_n: 20,
        magic: 77,
        header_size: 40,
        has_tag_seed: true,
    }
}

fn both() -> LevelParams {
    LevelParams { index: table(75, 17), chunk: table(80, 44) }
}

#[test]
fn level_names() {
    assert_eq!(Level::Index.as_str(), "index");
    assert_eq!(Level::Chunk.as_str(), "chunk");
    assert_eq!(Level::Index.file_name(), "batch_pir_cuckoo.bin");
    assert_eq!(Level::Chunk.file_name(), "chunk_pir_cuckoo.bin");
    assert_eq!(Level::Index.data_file_name(), "batch_pir_cuckoo.bin");
    assert_eq!(Level::Chunk.data_file_name(), "chunk_pir_cuckoo.bin");
}

#[test]
fn level_offsets() {
    let all = both();
    assert_eq!(Level::Index.k_offset(&all), 0);
    assert_eq!(Level::Chunk.k_offset(&all), 75);
    assert_eq!(Level::Index.tree_offset(&all), 0);
    assert_eq!(Level::Chunk.tree_offset(&all), 75);
    assert_eq!(Level::Index.params(&all), all.index);
    assert_eq!(Level::Chunk.params(&all), all.chunk);
}

#[test]
fn backend_names() {
    let ids = BackendIds { hmr12: 4, fast_prp: 9 };
    assert_eq!(Backend::Hmr12.as_str(), "hmr12");
    assert_eq!(Backend::FastPrp.as_str(), "fastprp");
    assert_eq!(Backend::Hmr12.id(&ids), 4);
    assert_eq!(Backend::FastPrp.id(&ids), 9);
}

#[test]
fn sibling_file_names() {
    assert_eq!(Level::Index.sibling_file_name(0), "merkle_bucket_index_sib_L0.bin");
    assert_eq!(Level::Chunk.sibling_file_name(12), "merkle_bucket_chunk_sib_L12.bin");
    let mut names = Vec::new();
    for level in [Level::Index, Level::Chunk] {
        for depth in 0..120 {
            names.push(level.sibling_file_name(depth));
        }
    }
    let count = names.len();
    names.sort();
    names.dedup();
    assert_eq!(names.len(), count);
}

#[test]
fn sibling_magic_numbers() {
    assert_eq!(Level::Index.sibling_magic(0), 0xba7c_b000_0000_0000);
    assert_eq!(Level::Index.sibling_magic(3), 0xba7c_b000_0003_0000);
    assert_eq!(Level::Chunk.sibling_magic(3), 0xba7c_b100_0003_0000);
    assert_ne!(Level::Index.sibling_magic(0xff_ffff), Level::Chunk.sibling_magic(0xff_ffff));
    // From this depth on the number of the depth runs into that of the level.
    assert_eq!(Level::Index.sibling_magic(0x100_0000), Level::Chunk.sibling_magic(0));
}

#[test]
fn sibling_tables() {
    assert_eq!(MERKLE_ROW_SIZE, MERKLE_ARITY * 32);
    let p = sibling_params(Level::Chunk, 2, &both());
    assert_eq!(
        p,
        TableParams {
            k: 80,
            num_hashes: 0,
            master_seed: 0,
            slots_per_bin: 1,
            cuckoo_num_hashes: 0,
            slot_size: 256,
            dpf_n: 0,
            magic: 0xba7c_b100_0002_0000,
            header_size: 32,
            has_tag_seed: false,
        }
    );
    assert_eq!(sibling_params(Level::Index, 0, &both()).k, 75);
}
