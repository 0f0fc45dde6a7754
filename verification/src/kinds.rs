//! The table levels, the permutation back ends and the table parameters of the protocol.
use crate::text::decimal_string;
use vstd::prelude::*;

#[allow(unused_imports)]
use crate::text::{decimal_digits, law_decimal_digits_injective};

verus! {

/// Children of one inner node of a Merkle tree.
pub const MERKLE_ARITY: usize = 8;

/// Bytes of one row of a sibling table: the hashes of all children of one node.
pub const MERKLE_ROW_SIZE: usize = 256;

/// Bytes of the header of a sibling table.
pub const SIBLING_HEADER_SIZE: usize = 32;

/// The parameters of one table of the protocol.
#[derive(Clone, Copy, Debug, PartialEq, Eq, Structural)]
pub struct TableParams {
    pub k: usize,
    pub num_hashes: usize,
    pub master_seed: u64,
    pub slots_per_bin: usize,
    pub cuckoo_num_hashes: usize,
    pub slot_size: usize,
    pub dpf_n: u8,
    pub magic: u64,
    pub header_size: usize,
    pub has_tag_seed: bool,
}

/// The parameters of both levels.
#[derive(Clone, Copy, Debug, PartialEq, Eq, Structural)]
pub struct LevelParams {
    pub index: TableParams,
    pub chunk: TableParams,
}

/// The two levels of tables.
#[derive(Clone, Copy, Debug, PartialEq, Eq, Structural)]
pub enum Level {
    Index,
    Chunk,
}

/// The two pseudorandom permutations that hints can be made with.
#[derive(Clone, Copy, Debug, PartialEq, Eq, Structural)]
pub enum Backend {
    Hmr12,
    FastPrp,
}

/// The protocol's number of each permutation.
#[derive(Clone, Copy, Debug, PartialEq, Eq, Structural)]
pub struct BackendIds {
    pub hmr12: u8,
    pub fast_prp: u8,
}

/// The file name of the sibling table of `level` that lies `depth` levels above the bins.
pub open spec fn sibling_name(level: Level, depth: nat) -> Seq<char> {
    let stem = match level {
        Level::Index => "merkle_bucket_index_sib_L"@,
        Level::Chunk => "merkle_bucket_chunk_sib_L"@,
    };
    stem + decimal_digits(depth) + ".bin"@
}

impl Level {
    /// The name of the level, as it is written on the command line.
    pub open spec fn name(self) -> Seq<char> {
        match self {
            Level::Index => "index"@,
            Level::Chunk => "chunk"@,
        }
    }

    /// The name of the file with the tables of the level.
    pub open spec fn table_file(self) -> Seq<char> {
        match self {
            Level::Index => "batch_pir_cuckoo.bin"@,
            Level::Chunk => "chunk_pir_cuckoo.bin"@,
        }
    }

    /// The parameters of the level.
    pub open spec fn spec_params(self, all: LevelParams) -> TableParams {
        match self {
            Level::Index => all.index,
            Level::Chunk => all.chunk,
        }
    }

    /// The number of the level.
    pub open spec fn number(self) -> u64 {
        match self {
            Level::Index => 0,
            Level::Chunk => 1,
        }
    }

    /// The position of the level's first group among the groups of all levels.
    pub open spec fn group_offset(self, all: LevelParams) -> nat {
        match self {
            Level::Index => 0,
            Level::Chunk => all.index.k as nat,
        }
    }

    /// The name of the level, as it is written on the command line.
    pub fn as_str(self) -> (r: &'static str)
        ensures
            r@ == self.name(),
    {
        match self {
            Level::Index => "index",
            Level::Chunk => "chunk",
        }
    }

    /// The parameters of the level.
    pub fn params(self, all: &LevelParams) -> (r: TableParams)
        ensures
            r == self.spec_params(*all),
    {
        match self {
            Level::Index => all.index,
            Level::Chunk => all.chunk,
        }
    }

    /// The name of the file with the tables of the level.
    pub fn file_name(self) -> (r: &'static str)
        ensures
            r@ == self.table_file(),
    {
        match self {
            Level::Index => "batch_pir_cuckoo.bin",
            Level::Chunk => "chunk_pir_cuckoo.bin",
        }
    }

    /// The name of the file with the tables of the level, whose bins the Merkle trees are over.
    pub fn data_file_name(self) -> (r: &'static str)
        ensures
            r@ == self.table_file(),
    {
        self.file_name()
    }

    /// The protocol's number of the level's first group.
    pub fn k_offset(self, all: &LevelParams) -> (r: u32)
        ensures
            r == self.group_offset(*all) as u32,
    {
        match self {
            Level::Index => 0,
            Level::Chunk => all.index.k as u32,
        }
    }

    /// The position of the level's first Merkle tree in the list of all trees.
    pub fn tree_offset(self, all: &LevelParams) -> (r: usize)
        ensures
            r == self.group_offset(*all),
    {
        match self {
            Level::Index => 0,
            Level::Chunk => all.index.k,
        }
    }

    /// The file name of the sibling table that lies `depth` levels above the bins.
    pub fn sibling_file_name(self, depth: usize) -> (r: String)
        ensures
            r@ == sibling_name(self, depth as nat),
    {
        let mut name = match self {
            Level::Index => "merkle_bucket_index_sib_L".to_owned(),
            Level::Chunk => "merkle_bucket_chunk_sib_L".to_owned(),
        };
        let digits = decimal_string(depth);
        name.append(digits.as_str());
        name.append(".bin");
        name
    }

    /// The magic number of the sibling table that lies `depth` levels above the bins.
    pub open spec fn sibling_magic_number(self, depth: usize) -> u64 {
        let base = 0xBA7C_B000_0000_0000u64 | ((depth as u64) << 16);
        match self {
            Level::Index => base,
            Level::Chunk => base | (1u64 << 40),
        }
    }

    /// The magic number of the sibling table that lies `depth` levels above the bins.
    pub fn sibling_magic(self, depth: usize) -> (r: u64)
        ensures
            r == self.sibling_magic_number(depth),
    {
        let d: u64 = depth as u64;
        match self {
            Level::Index => 0xBA7C_B000_0000_0000u64 | (d << 16),
            Level::Chunk => {
                assert(0xBA7C_B000_0000_0000u64 | (1u64 << 40) | (d << 16) == (
                0xBA7C_B000_0000_0000u64 | (d << 16)) | (1u64 << 40)) by (bit_vector);
                0xBA7C_B000_0000_0000u64 | (1u64 << 40) | (d << 16)
            },
        }
    }
}

impl Backend {
    /// The name of the permutation, as it is written on the command line.
    pub open spec fn name(self) -> Seq<char> {
        match self {
            Backend::Hmr12 => "hmr12"@,
            Backend::FastPrp => "fastprp"@,
        }
    }

    /// The protocol's number of the permutation.
    pub open spec fn spec_id(self, ids: BackendIds) -> u8 {
        match self {
            Backend::Hmr12 => ids.hmr12,
            Backend::FastPrp => ids.fast_prp,
        }
    }

    /// The name of the permutation, as it is written on the command line.
    pub fn as_str(self) -> (r: &'static str)
        ensures
            r@ == self.name(),
    {
        match self {
            Backend::Hmr12 => "hmr12",
            Backend::FastPrp => "fastprp",
        }
    }

    /// The protocol's number of the permutation.
    pub fn id(self, ids: &BackendIds) -> (r: u8)
        ensures
            r == self.spec_id(*ids),
    {
        match self {
            Backend::Hmr12 => ids.hmr12,
            Backend::FastPrp => ids.fast_prp,
        }
    }
}

/// What tells a sibling table of `level` from other tables: as many groups as the level has, one
/// row of hashes per bin, and a magic number of its own.
pub open spec fn sibling_table(level: Level, depth: usize, all: LevelParams) -> TableParams {
    TableParams {
        k: level.spec_params(all).k,
        num_hashes: 0,
        master_seed: 0,
        slots_per_bin: 1,
        cuckoo_num_hashes: 0,
        slot_size: MERKLE_ROW_SIZE,
        dpf_n: 0,
        magic: level.sibling_magic_number(depth),
        header_size: SIBLING_HEADER_SIZE,
        has_tag_seed: false,
    }
}

/// The parameters of the sibling table of `level` that lies `depth` levels above the bins.
pub fn sibling_params(level: Level, depth: usize, all: &LevelParams) -> (r: TableParams)
    ensures
        r == sibling_table(level, depth, *all),
{
    let base = level.params(all);
    TableParams {
        k: base.k,
        num_hashes: 0,
        master_seed: 0,
        slots_per_bin: 1,
        cuckoo_num_hashes: 0,
        slot_size: MERKLE_ROW_SIZE,
        dpf_n: 0,
        magic: level.sibling_magic(depth),
        header_size: SIBLING_HEADER_SIZE,
        has_tag_seed: false,
    }
}

/// No two sibling tables share a file name.
pub proof fn law_sibling_names_distinct(a: Level, da: nat, b: Level, db: nat)
    requires
        sibling_name(a, da) == sibling_name(b, db),
    ensures
        a == b,
        da == db,
{
    reveal_strlit("merkle_bucket_index_sib_L");
    reveal_strlit("merkle_bucket_chunk_sib_L");
    reveal_strlit(".bin");
    let x = sibling_name(a, da);
    let y = sibling_name(b, db);
    assert(a == b) by {
        assert(x[14] == (if a is Index { 'i' } else { 'c' }));
        assert(y[14] == (if b is Index { 'i' } else { 'c' }));
    }
    let n: int = 25;
    assert(decimal_digits(da) =~= x.subrange(n, x.len() - 4));
    assert(decimal_digits(db) =~= y.subrange(n, y.len() - 4));
    law_decimal_digits_injective(da, db);
}

/// No two sibling tables of the first 2^24 depths share a magic number.
pub proof fn law_sibling_magic_distinct(a: Level, da: usize, b: Level, db: usize)
    requires
        da < 0x100_0000,
        db < 0x100_0000,
        a.sibling_magic_number(da) == b.sibling_magic_number(db),
    ensures
        a == b,
        da == db,
{
    let x = da as u64;
    let y = db as u64;
    let p = 0xBA7C_B000_0000_0000u64 | (x << 16);
    let q = 0xBA7C_B000_0000_0000u64 | (y << 16);
    assert(x < 0x100_0000 && y < 0x100_0000 ==> (0xBA7C_B000_0000_0000u64 | (x << 16)) != ((
    0xBA7C_B000_0000_0000u64 | (y << 16)) | (1u64 << 40))) by (bit_vector);
    assert(x < 0x100_0000 && y < 0x100_0000 ==> (0xBA7C_B000_0000_0000u64 | (y << 16)) != ((
    0xBA7C_B000_0000_0000u64 | (x << 16)) | (1u64 << 40))) by (bit_vector);
    assert(x < 0x100_0000 && y < 0x100_0000 && (0xBA7C_B000_0000_0000u64 | (x << 16)) == (
    0xBA7C_B000_0000_0000u64 | (y << 16)) ==> x == y) by (bit_vector);
    assert(x < 0x100_0000 && y < 0x100_0000 && ((0xBA7C_B000_0000_0000u64 | (x << 16)) | (1u64
        << 40)) == ((0xBA7C_B000_0000_0000u64 | (y << 16)) | (1u64 << 40)) ==> x == y)
        by (bit_vector);
}

/// What belongs to a level: its parameters, its number, the file of its tables, and its place
/// behind the groups of the levels before.
pub proof fn law_level_parts(level: Level, all: LevelParams)
    ensures
        level is Index ==> level.spec_params(all) == all.index && level.group_offset(all) == 0
            && level.number() == 0 && level.table_file() == "batch_pir_cuckoo.bin"@,
        level is Chunk ==> level.spec_params(all) == all.chunk && level.group_offset(all)
            == all.index.k && level.number() == 1 && level.table_file()
            == "chunk_pir_cuckoo.bin"@,
{
}

/// What belongs to a permutation: its own number.
pub proof fn law_backend_number(backend: Backend, ids: BackendIds)
    ensures
        backend is Hmr12 ==> backend.spec_id(ids) == ids.hmr12,
        backend is FastPrp ==> backend.spec_id(ids) == ids.fast_prp,
{
}

/// The name of a sibling table tells its level and, in decimal, its height.
pub proof fn law_sibling_name(level: Level, depth: nat)
    ensures
        level is Index ==> sibling_name(level, depth) == "merkle_bucket_index_sib_L"@
            + decimal_digits(depth) + ".bin"@,
        level is Chunk ==> sibling_name(level, depth) == "merkle_bucket_chunk_sib_L"@
            + decimal_digits(depth) + ".bin"@,
{
}

/// The magic number of a sibling table is a constant with the level added from bit 40 on, and the
/// height from bit 16 on; a height that does not fit below the level is laid over it, without what
/// lies above bit 63.
pub proof fn law_sibling_magic(level: Level, depth: usize)
    ensures
        depth < 0x100_0000 ==> level.sibling_magic_number(depth) == 0xBA7C_B000_0000_0000
            + 0x100_0000_0000 * (if level is Chunk {
            1int
        } else {
            0int
        }) + 0x1_0000 * depth,
        level.sibling_magic_number(depth) == (if level is Chunk {
            0xBA7C_B100_0000_0000u64
        } else {
            0xBA7C_B000_0000_0000u64
        }) | (((0x1_0000 * depth) % 0x1_0000_0000_0000_0000) as u64),
{
    let d = depth as u64;
    assert(d << 16 == ((0x1_0000 * d) % 0x1_0000_0000_0000_0000) as u64) by (bit_vector);
    let h = d << 16;
    assert((0xBA7C_B000_0000_0000u64 | h) | (1u64 << 40) == 0xBA7C_B100_0000_0000u64 | h)
        by (bit_vector);
    assert(d < 0x100_0000 ==> (0xBA7C_B000_0000_0000u64 | (d << 16)) == 0xBA7C_B000_0000_0000
        + 0x1_0000 * d && ((0xBA7C_B000_0000_0000u64 | (d << 16)) | (1u64 << 40))
        == 0xBA7C_B100_0000_0000 + 0x1_0000 * d) by (bit_vector);
}

/// A sibling table has as many groups as its level, rows of 256 bytes, a header of 32, and nothing
/// else but its magic number.
pub proof fn law_sibling_table(level: Level, depth: usize, all: LevelParams)
    ensures
        ({
            let t = sibling_table(level, depth, all);
            &&& level is Index ==> t.k == all.index.k
            &&& level is Chunk ==> t.k == all.chunk.k
            &&& t.magic == level.sibling_magic_number(depth)
            &&& t.slots_per_bin == 1 && t.slot_size == 256 && t.header_size == 32
            &&& t.num_hashes == 0 && t.master_seed == 0 && t.cuckoo_num_hashes == 0 && t.dpf_n
                == 0 && !t.has_tag_seed
        }),
{
}

} // verus!
