//! The file format of tree tops, told from the writer's side.
use crate::bytes::{le16, le32, HASH_BYTES};
use crate::tree::{
    hashes_at, read_level, read_levels, read_top, read_tops, tree_tops_of, TreeTopError,
    TreeTopView,
};
use vstd::prelude::*;

verus! {

/// The two bytes that write `n`, the least significant first.
pub open spec fn le16_bytes(n: nat) -> Seq<u8> {
    seq![(n % 0x100) as u8, (n / 0x100) as u8]
}

/// The four bytes that write `n`, the least significant first.
pub open spec fn le32_bytes(n: nat) -> Seq<u8> {
    seq![
        (n % 0x100) as u8,
        (n / 0x100 % 0x100) as u8,
        (n / 0x1_0000 % 0x100) as u8,
        (n / 0x100_0000) as u8,
    ]
}

/// The bytes of `hashes`, one after the other.
pub open spec fn hash_bytes(hashes: Seq<Seq<u8>>) -> Seq<u8>
    decreases hashes.len(),
{
    if hashes.len() == 0 {
        Seq::empty()
    } else {
        hash_bytes(hashes.drop_last()) + hashes.last()
    }
}

/// The bytes of one level.
pub open spec fn level_bytes(level: Seq<Seq<u8>>) -> Seq<u8> {
    le32_bytes(level.len()) + hash_bytes(level)
}

/// The bytes of `levels`, one after the other.
pub open spec fn levels_bytes(levels: Seq<Seq<Seq<u8>>>) -> Seq<u8>
    decreases levels.len(),
{
    if levels.len() == 0 {
        Seq::empty()
    } else {
        levels_bytes(levels.drop_last()) + level_bytes(levels.last())
    }
}

/// The bytes of one tree of `total_nodes` nodes.
pub open spec fn top_bytes(top: TreeTopView, total_nodes: nat) -> Seq<u8> {
    seq![top.cache_from as u8] + le32_bytes(total_nodes) + le16_bytes(top.arity)
        + seq![top.levels.len() as u8] + levels_bytes(top.levels)
}

/// The bytes of `tops`, one after the other.
pub open spec fn tops_bytes(tops: Seq<TreeTopView>, total_nodes: Seq<nat>) -> Seq<u8>
    decreases tops.len(),
{
    if tops.len() == 0 {
        Seq::empty()
    } else {
        tops_bytes(tops.drop_last(), total_nodes) + top_bytes(
            tops.last(),
            total_nodes[tops.len() - 1],
        )
    }
}

/// The bytes of a whole file.
pub open spec fn file_bytes(tops: Seq<TreeTopView>, total_nodes: Seq<nat>) -> Seq<u8> {
    le32_bytes(tops.len()) + tops_bytes(tops, total_nodes)
}

/// The nodes of a level can be counted in four bytes, and each is a hash.
pub open spec fn level_fits(level: Seq<Seq<u8>>) -> bool {
    &&& level.len() < 0x1_0000_0000
    &&& forall|i: int| 0 <= i < level.len() ==> (#[trigger] level[i]).len() == HASH_BYTES
}

/// The numbers of a tree fit into their bytes.
pub open spec fn top_fits(top: TreeTopView) -> bool {
    &&& top.cache_from < 0x100
    &&& top.arity < 0x1_0000
    &&& top.levels.len() < 0x100
    &&& forall|i: int| 0 <= i < top.levels.len() ==> level_fits(#[trigger] top.levels[i])
}

/// A list of trees that a file can hold, and the number of nodes of each.
pub open spec fn tops_fit(tops: Seq<TreeTopView>, total_nodes: Seq<nat>) -> bool {
    &&& tops.len() < 0x1_0000_0000
    &&& total_nodes.len() == tops.len()
    &&& forall|i: int| 0 <= i < tops.len() ==> top_fits(#[trigger] tops[i])
    &&& forall|i: int| 0 <= i < tops.len() ==> (#[trigger] total_nodes[i]) < 0x1_0000_0000
}

/// `data` holds `part` from `off` on.
spec fn holds_at(data: Seq<u8>, off: int, part: Seq<u8>) -> bool {
    &&& 0 <= off
    &&& off + part.len() <= data.len()
    &&& data.subrange(off, off + part.len()) == part
}

proof fn lemma_holds_concat(data: Seq<u8>, off: int, a: Seq<u8>, b: Seq<u8>)
    ensures
        holds_at(data, off, a + b) <==> holds_at(data, off, a) && holds_at(data, off + a.len(), b),
{
    if holds_at(data, off, a + b) {
        let s = data.subrange(off, off + a.len() + b.len());
        assert(s == a + b);
        assert(data.subrange(off, off + a.len()) =~= s.subrange(0, a.len() as int));
        assert((a + b).subrange(0, a.len() as int) =~= a);
        assert(data.subrange(off + a.len(), off + a.len() + b.len()) =~= s.subrange(
            a.len() as int,
            (a.len() + b.len()) as int,
        ));
        assert((a + b).subrange(a.len() as int, (a.len() + b.len()) as int) =~= b);
    }
    if holds_at(data, off, a) && holds_at(data, off + a.len(), b) {
        assert(data.subrange(off, off + (a + b).len()) =~= data.subrange(off, off + a.len())
            + data.subrange(off + a.len(), off + a.len() + b.len()));
    }
}

proof fn lemma_le32(data: Seq<u8>, off: int)
    requires
        0 <= off,
        off + 4 <= data.len(),
    ensures
        le32(data, off) < 0x1_0000_0000,
        holds_at(data, off, le32_bytes(le32(data, off))),
{
    let a = data[off] as int;
    let b = data[off + 1] as int;
    let c = data[off + 2] as int;
    let d = data[off + 3] as int;
    let n = le32(data, off) as int;
    assert(n == a + 0x100 * b + 0x1_0000 * c + 0x100_0000 * d);
    assert(n % 0x100 == a && n / 0x100 == b + 0x100 * c + 0x1_0000 * d);
    assert(n / 0x1_0000 == c + 0x100 * d);
    assert(n / 0x100_0000 == d);
    assert(data.subrange(off, off + 4) =~= le32_bytes(n as nat));
}

proof fn lemma_le32_bytes(data: Seq<u8>, off: int, n: nat)
    requires
        n < 0x1_0000_0000,
        holds_at(data, off, le32_bytes(n)),
    ensures
        le32(data, off) == n,
{
    let s = le32_bytes(n);
    let t = data.subrange(off, off + 4);
    assert(t[0] == s[0] && t[1] == s[1] && t[2] == s[2] && t[3] == s[3]);
}

proof fn lemma_le16(data: Seq<u8>, off: int)
    requires
        0 <= off,
        off + 2 <= data.len(),
    ensures
        le16(data, off) < 0x1_0000,
        holds_at(data, off, le16_bytes(le16(data, off))),
{
    assert(data.subrange(off, off + 2) =~= le16_bytes(le16(data, off)));
}

proof fn lemma_le16_bytes(data: Seq<u8>, off: int, n: nat)
    requires
        n < 0x1_0000,
        holds_at(data, off, le16_bytes(n)),
    ensures
        le16(data, off) == n,
{
    let s = le16_bytes(n);
    let t = data.subrange(off, off + 2);
    assert(t[0] == s[0] && t[1] == s[1]);
}

/// Hashes of the right size take so many bytes, and stand where their numbers say.
proof fn lemma_hash_bytes(data: Seq<u8>, off: int, hashes: Seq<Seq<u8>>)
    requires
        0 <= off,
        forall|i: int| 0 <= i < hashes.len() ==> (#[trigger] hashes[i]).len() == HASH_BYTES,
    ensures
        hash_bytes(hashes).len() == HASH_BYTES * hashes.len(),
        holds_at(data, off, hash_bytes(hashes)) <==> off + HASH_BYTES * hashes.len() <= data.len()
            && hashes_at(data, off, hashes.len()) == hashes,
    decreases hashes.len(),
{
    if hashes.len() == 0 {
        assert(hashes_at(data, off, 0) =~= hashes);
        if off <= data.len() {
            assert(data.subrange(off, off) =~= Seq::empty());
        }
    } else {
        let rest = hashes.drop_last();
        let n = rest.len();
        assert forall|i: int| 0 <= i < rest.len() implies (#[trigger] rest[i]).len()
            == HASH_BYTES by {
            assert(hashes[i].len() == HASH_BYTES);
        }
        lemma_hash_bytes(data, off, rest);
        lemma_holds_concat(data, off, hash_bytes(rest), hashes.last());
        assert(hashes[hashes.len() - 1].len() == HASH_BYTES);
        let all = hashes_at(data, off, hashes.len());
        assert(all.drop_last() =~= hashes_at(data, off, n));
        if holds_at(data, off, hash_bytes(hashes)) {
            assert(all =~= hashes) by {
                assert forall|i: int| 0 <= i < all.len() implies all[i] == hashes[i] by {
                    if i < n {
                        assert(hashes_at(data, off, n)[i] == rest[i]);
                    }
                }
            }
        }
        if off + HASH_BYTES * hashes.len() <= data.len() && all == hashes {
            assert(all[n as int] == hashes[n as int]);
            assert(hashes_at(data, off, n) =~= rest) by {
                assert forall|i: int| 0 <= i < n implies hashes_at(data, off, n)[i]
                    == rest[i] by {
                    assert(all[i] == hashes[i]);
                }
            }
        }
    }
}

proof fn lemma_level_from_bytes(data: Seq<u8>, off: int, level: Seq<Seq<u8>>)
    requires
        level_fits(level),
        holds_at(data, off, level_bytes(level)),
    ensures
        read_level(data, off) == Ok::<(Seq<Seq<u8>>, int), TreeTopError>(
            (level, off + level_bytes(level).len()),
        ),
{
    lemma_holds_concat(data, off, le32_bytes(level.len()), hash_bytes(level));
    lemma_le32_bytes(data, off, level.len());
    lemma_hash_bytes(data, off + 4, level);
}

proof fn lemma_level_to_bytes(data: Seq<u8>, off: int)
    requires
        0 <= off,
        read_level(data, off) is Ok,
    ensures
        ({
            let (level, end) = read_level(data, off)->Ok_0;
            &&& level_fits(level)
            &&& holds_at(data, off, level_bytes(level))
            &&& end == off + level_bytes(level).len()
        }),
{
    let (level, end) = read_level(data, off)->Ok_0;
    lemma_le32(data, off);
    assert forall|i: int| 0 <= i < level.len() implies (#[trigger] level[i]).len()
        == HASH_BYTES by {}
    lemma_hash_bytes(data, off + 4, level);
    lemma_holds_concat(data, off, le32_bytes(level.len()), hash_bytes(level));
}

proof fn lemma_levels_from_bytes(data: Seq<u8>, off: int, levels: Seq<Seq<Seq<u8>>>)
    requires
        forall|i: int| 0 <= i < levels.len() ==> level_fits(#[trigger] levels[i]),
        holds_at(data, off, levels_bytes(levels)),
    ensures
        read_levels(data, off, levels.len()) == Ok::<(Seq<Seq<Seq<u8>>>, int), TreeTopError>(
            (levels, off + levels_bytes(levels).len()),
        ),
    decreases levels.len(),
{
    if levels.len() == 0 {
        assert(levels =~= Seq::empty());
    } else {
        let rest = levels.drop_last();
        assert forall|i: int| 0 <= i < rest.len() implies level_fits(#[trigger] rest[i]) by {
            assert(level_fits(levels[i]));
        }
        assert(level_fits(levels[levels.len() - 1]));
        lemma_holds_concat(data, off, levels_bytes(rest), level_bytes(levels.last()));
        lemma_levels_from_bytes(data, off, rest);
        lemma_level_from_bytes(data, off + levels_bytes(rest).len(), levels.last());
        assert(rest.push(levels.last()) =~= levels);
    }
}

proof fn lemma_levels_to_bytes(data: Seq<u8>, off: int, count: nat)
    requires
        0 <= off <= data.len(),
        read_levels(data, off, count) is Ok,
    ensures
        ({
            let (levels, end) = read_levels(data, off, count)->Ok_0;
            &&& levels.len() == count
            &&& forall|i: int| 0 <= i < levels.len() ==> level_fits(#[trigger] levels[i])
            &&& holds_at(data, off, levels_bytes(levels))
            &&& end == off + levels_bytes(levels).len()
        }),
    decreases count,
{
    let (levels, end) = read_levels(data, off, count)->Ok_0;
    if count == 0 {
        assert(data.subrange(off, off) =~= Seq::empty());
    } else {
        lemma_levels_to_bytes(data, off, (count - 1) as nat);
        let (rest, mid) = read_levels(data, off, (count - 1) as nat)->Ok_0;
        lemma_level_to_bytes(data, mid);
        let (last, _) = read_level(data, mid)->Ok_0;
        assert(levels.drop_last() =~= rest);
        lemma_holds_concat(data, off, levels_bytes(rest), level_bytes(last));
        assert forall|i: int| 0 <= i < levels.len() implies level_fits(#[trigger] levels[i]) by {
            if i < rest.len() {
                assert(level_fits(rest[i]));
            }
        }
    }
}

proof fn lemma_top_from_bytes(data: Seq<u8>, off: int, top: TreeTopView, total_nodes: nat)
    requires
        top_fits(top),
        total_nodes < 0x1_0000_0000,
        holds_at(data, off, top_bytes(top, total_nodes)),
    ensures
        read_top(data, off) == Ok::<(TreeTopView, int), TreeTopError>(
            (top, off + top_bytes(top, total_nodes).len()),
        ),
{
    let a = seq![top.cache_from as u8];
    let b = le32_bytes(total_nodes);
    let c = le16_bytes(top.arity);
    let d = seq![top.levels.len() as u8];
    lemma_holds_concat(data, off, a + b + c + d, levels_bytes(top.levels));
    lemma_holds_concat(data, off, a + b + c, d);
    lemma_holds_concat(data, off, a + b, c);
    lemma_holds_concat(data, off, a, b);
    assert(data.subrange(off, off + 1)[0] == a[0]);
    assert(data.subrange(off + 7, off + 8)[0] == d[0]);
    lemma_le16_bytes(data, off + 5, top.arity);
    lemma_levels_from_bytes(data, off + 8, top.levels);
}

proof fn lemma_top_to_bytes(data: Seq<u8>, off: int)
    requires
        0 <= off,
        read_top(data, off) is Ok,
    ensures
        ({
            let (top, end) = read_top(data, off)->Ok_0;
            let total = le32(data, off + 1);
            &&& top_fits(top)
            &&& total < 0x1_0000_0000
            &&& holds_at(data, off, top_bytes(top, total))
            &&& end == off + top_bytes(top, total).len()
        }),
{
    let (top, end) = read_top(data, off)->Ok_0;
    let total = le32(data, off + 1);
    lemma_levels_to_bytes(data, off + 8, data[off + 7] as nat);
    lemma_le32(data, off + 1);
    lemma_le16(data, off + 5);
    let a = seq![top.cache_from as u8];
    let b = le32_bytes(total);
    let c = le16_bytes(top.arity);
    let d = seq![top.levels.len() as u8];
    assert(data.subrange(off, off + 1) =~= a);
    assert(data.subrange(off + 7, off + 8) =~= d);
    lemma_holds_concat(data, off, a, b);
    lemma_holds_concat(data, off, a + b, c);
    lemma_holds_concat(data, off, a + b + c, d);
    lemma_holds_concat(data, off, a + b + c + d, levels_bytes(top.levels));
}

proof fn lemma_tops_bytes_prefix(tops: Seq<TreeTopView>, t1: Seq<nat>, t2: Seq<nat>)
    requires
        forall|i: int| 0 <= i < tops.len() ==> t1[i] == t2[i],
    ensures
        tops_bytes(tops, t1) == tops_bytes(tops, t2),
    decreases tops.len(),
{
    if tops.len() > 0 {
        lemma_tops_bytes_prefix(tops.drop_last(), t1, t2);
        assert(t1[tops.len() - 1] == t2[tops.len() - 1]);
    }
}

proof fn lemma_tops_from_bytes(data: Seq<u8>, off: int, tops: Seq<TreeTopView>, totals: Seq<nat>)
    requires
        forall|i: int| 0 <= i < tops.len() ==> top_fits(#[trigger] tops[i]),
        forall|i: int| 0 <= i < tops.len() ==> (#[trigger] totals[i]) < 0x1_0000_0000,
        holds_at(data, off, tops_bytes(tops, totals)),
    ensures
        read_tops(data, off, tops.len()) == Ok::<(Seq<TreeTopView>, int), TreeTopError>(
            (tops, off + tops_bytes(tops, totals).len()),
        ),
    decreases tops.len(),
{
    if tops.len() == 0 {
        assert(tops =~= Seq::empty());
    } else {
        let rest = tops.drop_last();
        let n = tops.len() - 1;
        assert forall|i: int| 0 <= i < rest.len() implies top_fits(#[trigger] rest[i]) by {
            assert(top_fits(tops[i]));
        }
        assert(top_fits(tops[n]) && totals[n] < 0x1_0000_0000);
        lemma_holds_concat(data, off, tops_bytes(rest, totals), top_bytes(tops.last(), totals[n]));
        lemma_tops_from_bytes(data, off, rest, totals);
        lemma_top_from_bytes(data, off + tops_bytes(rest, totals).len(), tops.last(), totals[n]);
        assert(rest.push(tops.last()) =~= tops);
    }
}

proof fn lemma_tops_to_bytes(data: Seq<u8>, off: int, count: nat) -> (totals: Seq<nat>)
    requires
        0 <= off <= data.len(),
        read_tops(data, off, count) is Ok,
    ensures
        ({
            let (tops, end) = read_tops(data, off, count)->Ok_0;
            &&& tops.len() == count
            &&& totals.len() == count
            &&& forall|i: int| 0 <= i < tops.len() ==> top_fits(#[trigger] tops[i])
            &&& forall|i: int| 0 <= i < tops.len() ==> (#[trigger] totals[i]) < 0x1_0000_0000
            &&& holds_at(data, off, tops_bytes(tops, totals))
            &&& end == off + tops_bytes(tops, totals).len()
        }),
    decreases count,
{
    let (tops, end) = read_tops(data, off, count)->Ok_0;
    if count == 0 {
        assert(data.subrange(off, off) =~= Seq::empty());
        Seq::empty()
    } else {
        let before = lemma_tops_to_bytes(data, off, (count - 1) as nat);
        let (rest, mid) = read_tops(data, off, (count - 1) as nat)->Ok_0;
        lemma_top_to_bytes(data, mid);
        let (last, _) = read_top(data, mid)->Ok_0;
        let total = le32(data, mid + 1);
        let totals = before.push(total);
        assert(tops.drop_last() =~= rest);
        lemma_tops_bytes_prefix(rest, before, totals);
        lemma_holds_concat(data, off, tops_bytes(rest, totals), top_bytes(last, total));
        assert forall|i: int| 0 <= i < tops.len() implies top_fits(#[trigger] tops[i]) by {
            if i < rest.len() {
                assert(top_fits(rest[i]));
            }
        }
        assert forall|i: int| 0 <= i < tops.len() implies (#[trigger] totals[i])
            < 0x1_0000_0000 by {
            if i < rest.len() {
                assert(before[i] < 0x1_0000_0000);
            }
        }
        totals
    }
}

/// What is written is read back, whatever numbers of nodes were written beside the trees.
pub proof fn law_written_tops_are_read(tops: Seq<TreeTopView>, total_nodes: Seq<nat>)
    requires
        tops_fit(tops, total_nodes),
    ensures
        tree_tops_of(file_bytes(tops, total_nodes)) == Ok::<Seq<TreeTopView>, TreeTopError>(tops),
{
    let data = file_bytes(tops, total_nodes);
    assert(data.subrange(0, data.len() as int) =~= data);
    lemma_holds_concat(data, 0, le32_bytes(tops.len()), tops_bytes(tops, total_nodes));
    lemma_le32_bytes(data, 0, tops.len());
    lemma_tops_from_bytes(data, 4, tops, total_nodes);
}

/// Only what was written so is read: a file that is accepted is one that writing the trees gives,
/// for some numbers of nodes.
pub proof fn law_read_tops_were_written(data: Seq<u8>)
    requires
        tree_tops_of(data) is Ok,
    ensures
        exists|total_nodes: Seq<nat>| #[trigger]
            tops_fit(tree_tops_of(data)->Ok_0, total_nodes) && data == file_bytes(
                tree_tops_of(data)->Ok_0,
                total_nodes,
            ),
{
    let tops = tree_tops_of(data)->Ok_0;
    lemma_le32(data, 0);
    let totals = lemma_tops_to_bytes(data, 4, le32(data, 0));
    lemma_holds_concat(data, 0, le32_bytes(tops.len()), tops_bytes(tops, totals));
    assert(data.subrange(0, data.len() as int) =~= data);
    assert(tops_fit(tops, totals));
}

} // verus!
