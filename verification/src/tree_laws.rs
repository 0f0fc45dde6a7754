//! Which bytes of its files a tree top and a list of roots are read from, and what is refused.
#[allow(unused_imports)]
use crate::bytes::{hash_views, Hash256};
#[allow(unused_imports)]
use crate::tree::{
    cache_matches, hashes_at, level_views, read_level, read_levels, read_top, read_tops, top_views,
    tree_tops_of, TreeTop, TreeTopError, TreeTopView,
};
use vstd::prelude::*;

verus! {

/// Hashes are read one after the other, thirty-two bytes each.
pub proof fn law_hashes_read(data: Seq<u8>, off: int, n: nat)
    requires
        0 <= off,
        off + 32 * n <= data.len(),
    ensures
        hashes_at(data, off, n).len() == n,
        forall|i: int| 0 <= i < n ==> (#[trigger] hashes_at(data, off, n)[i]).len() == 32,
        forall|i: int, j: int|
            0 <= i < n && 0 <= j < 32 ==> #[trigger] hashes_at(data, off, n)[i][j] == data[off + 32
                * i + j],
{
}

/// A level is read from four bytes that hold the number of its nodes and the nodes that follow; it
/// is refused where the file ends within the number, or within the nodes.
pub proof fn law_level_read(data: Seq<u8>, off: int)
    requires
        0 <= off,
    ensures
        ({
            let n = data[off] + 0x100 * data[off + 1] + 0x1_0000 * data[off + 2] + 0x100_0000
                * data[off + 3];
            if off + 4 > data.len() {
                read_level(data, off) == Err::<(Seq<Seq<u8>>, int), TreeTopError>(
                    TreeTopError::TruncatedLevel,
                )
            } else if off + 4 + 32 * n > data.len() {
                read_level(data, off) == Err::<(Seq<Seq<u8>>, int), TreeTopError>(
                    TreeTopError::TruncatedHashes,
                )
            } else {
                &&& read_level(data, off) is Ok
                &&& read_level(data, off)->Ok_0.0.len() == n
                &&& read_level(data, off)->Ok_0.1 == off + 4 + 32 * n
                &&& forall|i: int|
                    0 <= i < n ==> #[trigger] read_level(data, off)->Ok_0.0[i] == data.subrange(
                        off + 4 + 32 * i,
                        off + 4 + 32 * i + 32,
                    )
            }
        }),
{
}

/// Levels are read one after the other: the next starts where those before it end, and what is
/// wrong with one of them is wrong with all that are read with it.
pub proof fn law_levels_read(data: Seq<u8>, off: int, count: nat)
    ensures
        read_levels(data, off, 0) == Ok::<(Seq<Seq<Seq<u8>>>, int), TreeTopError>(
            (Seq::empty(), off),
        ),
        read_levels(data, off, count) is Err ==> read_levels(data, off, count + 1) == read_levels(
            data,
            off,
            count,
        ),
        read_levels(data, off, count) is Ok ==> ({
            let (levels, end) = read_levels(data, off, count)->Ok_0;
            match read_level(data, end) {
                Err(e) => read_levels(data, off, count + 1) == Err::<
                    (Seq<Seq<Seq<u8>>>, int),
                    TreeTopError,
                >(e),
                Ok((level, next)) => read_levels(data, off, count + 1) == Ok::<
                    (Seq<Seq<Seq<u8>>>, int),
                    TreeTopError,
                >((levels.push(level), next)),
            }
        }),
{
}

/// A tree is read from one byte with the height of its lowest cached level, four that are not kept,
/// two with its arity, one with the number of its cached levels, and the levels; it is refused
/// where the file ends within the first eight bytes, or where a level is.
pub proof fn law_top_read(data: Seq<u8>, off: int)
    requires
        0 <= off,
    ensures
        off + 8 > data.len() ==> read_top(data, off) == Err::<(TreeTopView, int), TreeTopError>(
            TreeTopError::TruncatedRecord,
        ),
        off + 8 <= data.len() ==> match read_levels(data, off + 8, data[off + 7] as nat) {
            Err(e) => read_top(data, off) == Err::<(TreeTopView, int), TreeTopError>(e),
            Ok((levels, end)) => {
                &&& read_top(data, off) is Ok
                &&& read_top(data, off)->Ok_0.0.cache_from == data[off]
                &&& read_top(data, off)->Ok_0.0.arity == data[off + 5] + 0x100 * data[off + 6]
                &&& read_top(data, off)->Ok_0.0.levels == levels
                &&& read_top(data, off)->Ok_0.1 == end
            },
        },
{
}

/// Trees are read one after the other: the next starts where those before it end, and what is
/// wrong with one of them is wrong with all that are read with it.
pub proof fn law_tops_read(data: Seq<u8>, off: int, count: nat)
    ensures
        read_tops(data, off, 0) == Ok::<(Seq<TreeTopView>, int), TreeTopError>(
            (Seq::empty(), off),
        ),
        read_tops(data, off, count) is Err ==> read_tops(data, off, count + 1) == read_tops(
            data,
            off,
            count,
        ),
        read_tops(data, off, count) is Ok ==> ({
            let (tops, end) = read_tops(data, off, count)->Ok_0;
            match read_top(data, end) {
                Err(e) => read_tops(data, off, count + 1) == Err::<
                    (Seq<TreeTopView>, int),
                    TreeTopError,
                >(e),
                Ok((top, next)) => read_tops(data, off, count + 1) == Ok::<
                    (Seq<TreeTopView>, int),
                    TreeTopError,
                >((tops.push(top), next)),
            }
        }),
{
}

/// A file of tree tops is read from four bytes with the number of trees and the trees that follow;
/// it is refused where it ends within the number, where a tree is, and where bytes are left over,
/// whose number is told.
pub proof fn law_tree_file_read(data: Seq<u8>)
    requires
        data.len() <= usize::MAX,
    ensures
        ({
            let n = data[0] + 0x100 * data[1] + 0x1_0000 * data[2] + 0x100_0000 * data[3];
            if data.len() < 4 {
                tree_tops_of(data) == Err::<Seq<TreeTopView>, TreeTopError>(TreeTopError::TooShort)
            } else {
                match read_tops(data, 4, n as nat) {
                    Err(e) => tree_tops_of(data) == Err::<Seq<TreeTopView>, TreeTopError>(e),
                    Ok((tops, end)) => {
                        &&& end == data.len() ==> tree_tops_of(data) == Ok::<
                            Seq<TreeTopView>,
                            TreeTopError,
                        >(tops)
                        &&& end != data.len() ==> tree_tops_of(data) == Err::<
                            Seq<TreeTopView>,
                            TreeTopError,
                        >(TreeTopError::TrailingBytes((data.len() - end) as usize))
                    },
                }
            }
        }),
{
}

/// What contracts speak of as the nodes and the trees are all nodes and all trees.
pub proof fn law_tree_views_hold_all(levels: Seq<Vec<Hash256>>, tops: Seq<TreeTop>)
    ensures
        level_views(levels).len() == levels.len(),
        forall|i: int| 0 <= i < levels.len() ==> (#[trigger] level_views(levels)[i]).len()
            == levels[i]@.len(),
        forall|i: int, j: int|
            0 <= i < levels.len() && 0 <= j < levels[i]@.len() ==> #[trigger] level_views(
                levels,
            )[i][j] == levels[i]@[j]@,
        top_views(tops).len() == tops.len(),
        forall|i: int|
            0 <= i < tops.len() ==> (#[trigger] top_views(tops)[i]).cache_from
                == tops[i].cache_from && top_views(tops)[i].arity == tops[i].arity
                && top_views(tops)[i].levels == level_views(tops[i].levels@),
{
    assert forall|i: int, j: int|
        0 <= i < levels.len() && 0 <= j < levels[i]@.len() implies #[trigger] level_views(
        levels,
    )[i][j] == levels[i]@[j]@ by {
        assert(level_views(levels)[i] == hash_views(levels[i]@));
    }
    assert forall|i: int| 0 <= i < levels.len() implies (#[trigger] level_views(levels)[i]).len()
        == levels[i]@.len() by {
        assert(level_views(levels)[i] == hash_views(levels[i]@));
    }
}

/// The tree top of a group fits the sibling tables where it starts as high as there are of them.
pub proof fn law_cache_matches(tops: Seq<TreeTop>, offset: nat, group: int, siblings: usize)
    ensures
        cache_matches(tops, offset, group, siblings) <==> tops[offset + group].cache_from
            == siblings,
{
}

} // verus!
