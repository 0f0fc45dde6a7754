//! Exclusive or of the rows that a predicate picks: what a server answers and what a hint holds.
use crate::bytes::{xor_seq, zeros};
use vstd::prelude::*;

verus! {

/// Exclusive or of those of `rows` whose number `pick` picks, as a byte string of `size` bytes.
pub open spec fn select_xor(
    rows: Seq<Seq<u8>>,
    pick: spec_fn(int) -> bool,
    size: nat,
) -> Seq<u8>
    decreases rows.len(),
{
    if rows.len() == 0 {
        zeros(size)
    } else {
        let rest = select_xor(rows.drop_last(), pick, size);
        if pick(rows.len() - 1) {
            xor_seq(rest, rows.last())
        } else {
            rest
        }
    }
}

/// Every one of `rows` has `size` bytes.
pub open spec fn rows_of_size(rows: Seq<Seq<u8>>, size: nat) -> bool {
    forall|i: int| 0 <= i < rows.len() ==> (#[trigger] rows[i]).len() == size
}

pub(crate) proof fn lemma_select_len(rows: Seq<Seq<u8>>, pick: spec_fn(int) -> bool, size: nat)
    ensures
        select_xor(rows, pick, size).len() == size,
    decreases rows.len(),
{
    if rows.len() > 0 {
        lemma_select_len(rows.drop_last(), pick, size);
    }
}

pub(crate) proof fn lemma_select_push(
    rows: Seq<Seq<u8>>,
    row: Seq<u8>,
    pick: spec_fn(int) -> bool,
    size: nat,
)
    ensures
        select_xor(rows.push(row), pick, size) == if pick(rows.len() as int) {
            xor_seq(select_xor(rows, pick, size), row)
        } else {
            select_xor(rows, pick, size)
        },
{
    assert(rows.push(row).drop_last() =~= rows);
}

/// Only what a predicate says of the numbers of the rows matters.
pub(crate) proof fn lemma_select_agree(
    rows: Seq<Seq<u8>>,
    p: spec_fn(int) -> bool,
    q: spec_fn(int) -> bool,
    size: nat,
)
    requires
        forall|i: int| 0 <= i < rows.len() ==> #[trigger] p(i) == q(i),
    ensures
        select_xor(rows, p, size) == select_xor(rows, q, size),
    decreases rows.len(),
{
    if rows.len() > 0 {
        lemma_select_agree(rows.drop_last(), p, q, size);
        assert(p(rows.len() - 1) == q(rows.len() - 1));
    }
}

/// Combining two selections leaves the rows that exactly one of them picks.
pub proof fn law_selections_combine(
    rows: Seq<Seq<u8>>,
    p: spec_fn(int) -> bool,
    q: spec_fn(int) -> bool,
    size: nat,
)
    requires
        rows_of_size(rows, size),
    ensures
        xor_seq(select_xor(rows, p, size), select_xor(rows, q, size)) == select_xor(
            rows,
            |i: int| p(i) != q(i),
            size,
        ),
    decreases rows.len(),
{
    let d = |i: int| p(i) != q(i);
    let a = select_xor(rows, p, size);
    let b = select_xor(rows, q, size);
    let c = select_xor(rows, d, size);
    lemma_select_len(rows, p, size);
    lemma_select_len(rows, q, size);
    lemma_select_len(rows, d, size);
    if rows.len() == 0 {
        assert(0u8 ^ 0u8 == 0u8) by (bit_vector);
        assert(xor_seq(a, b) =~= c);
    } else {
        let r = rows.drop_last();
        assert forall|i: int| 0 <= i < r.len() implies (#[trigger] r[i]).len() == size by {
            assert(rows[i].len() == size);
        }
        law_selections_combine(r, p, q, size);
        lemma_select_len(r, p, size);
        lemma_select_len(r, q, size);
        lemma_select_len(r, d, size);
        let a0 = select_xor(r, p, size);
        let b0 = select_xor(r, q, size);
        let c0 = select_xor(r, d, size);
        let n = rows.len() - 1;
        assert(rows[n].len() == size);
        assert forall|i: int| 0 <= i < size implies xor_seq(a, b)[i] == c[i] by {
            let x = a0[i];
            let y = b0[i];
            let z = rows.last()[i];
            assert(xor_seq(a0, b0)[i] == c0[i]);
            assert((x ^ z) ^ y == (x ^ y) ^ z) by (bit_vector);
            assert(x ^ (y ^ z) == (x ^ y) ^ z) by (bit_vector);
            assert((x ^ z) ^ (y ^ z) == x ^ y) by (bit_vector);
        }
        assert(xor_seq(a, b) =~= c);
    }
}

/// Picking one row gives that row.
pub proof fn law_select_one(
    rows: Seq<Seq<u8>>,
    pick: spec_fn(int) -> bool,
    only: int,
    size: nat,
)
    requires
        rows_of_size(rows, size),
        0 <= only < rows.len(),
        forall|i: int| 0 <= i < rows.len() ==> (#[trigger] pick(i) <==> i == only),
    ensures
        select_xor(rows, pick, size) == rows[only],
    decreases rows.len(),
{
    let r = rows.drop_last();
    let n = rows.len() - 1;
    assert forall|i: int| 0 <= i < r.len() implies (#[trigger] r[i]).len() == size by {
        assert(rows[i].len() == size);
    }
    if only == n {
        lemma_select_none(r, pick, size);
        assert(pick(n));
        assert(rows[n].len() == size);
        assert forall|i: int| 0 <= i < size implies xor_seq(zeros(size), rows[n])[i]
            == rows[n][i] by {
            let x = rows[n][i];
            assert(0u8 ^ x == x) by (bit_vector);
        }
        assert(xor_seq(zeros(size), rows[n]) =~= rows[n]);
    } else {
        law_select_one(r, pick, only, size);
        assert(!pick(n));
    }
}

/// Selections are linear in the rows: to combine two lists of rows row by row and then to select
/// gives the same as to select from each and then to combine.
pub proof fn law_selection_is_linear(
    a: Seq<Seq<u8>>,
    b: Seq<Seq<u8>>,
    both: Seq<Seq<u8>>,
    pick: spec_fn(int) -> bool,
    size: nat,
)
    requires
        rows_of_size(a, size),
        rows_of_size(b, size),
        b.len() == a.len(),
        both.len() == a.len(),
        forall|i: int| 0 <= i < a.len() ==> #[trigger] both[i] == xor_seq(a[i], b[i]),
    ensures
        select_xor(both, pick, size) == xor_seq(
            select_xor(a, pick, size),
            select_xor(b, pick, size),
        ),
    decreases a.len(),
{
    lemma_select_len(a, pick, size);
    lemma_select_len(b, pick, size);
    lemma_select_len(both, pick, size);
    if a.len() == 0 {
        assert(0u8 ^ 0u8 == 0u8) by (bit_vector);
        assert(select_xor(both, pick, size) =~= xor_seq(
            select_xor(a, pick, size),
            select_xor(b, pick, size),
        ));
    } else {
        let n = a.len() - 1;
        let (a0, b0, both0) = (a.drop_last(), b.drop_last(), both.drop_last());
        assert forall|i: int| 0 <= i < n implies (#[trigger] a0[i]).len() == size by {
            assert(a[i].len() == size);
        }
        assert forall|i: int| 0 <= i < n implies (#[trigger] b0[i]).len() == size by {
            assert(b[i].len() == size);
        }
        assert forall|i: int| 0 <= i < n implies #[trigger] both0[i] == xor_seq(a0[i], b0[i]) by {
            assert(both[i] == xor_seq(a[i], b[i]));
        }
        law_selection_is_linear(a0, b0, both0, pick, size);
        if pick(n) {
            let x = select_xor(a0, pick, size);
            let y = select_xor(b0, pick, size);
            lemma_select_len(a0, pick, size);
            lemma_select_len(b0, pick, size);
            lemma_select_len(both0, pick, size);
            assert(a[n].len() == size && b[n].len() == size);
            assert(both[n] == xor_seq(a[n], b[n]));
            assert forall|i: int| 0 <= i < size implies #[trigger] xor_seq(
                xor_seq(x, y),
                both[n],
            )[i] == xor_seq(xor_seq(x, a[n]), xor_seq(y, b[n]))[i] by {
                let (p, q, u, v) = (x[i], y[i], a[n][i], b[n][i]);
                assert((p ^ q) ^ (u ^ v) == (p ^ u) ^ (q ^ v)) by (bit_vector);
            }
            assert(xor_seq(xor_seq(x, y), both[n]) =~= xor_seq(
                xor_seq(x, a[n]),
                xor_seq(y, b[n]),
            ));
        }
    }
}

/// Byte `b` of a selection takes in byte `b` of every row that is picked, and of no other.
pub proof fn law_selection_of_bytes(
    rows: Seq<Seq<u8>>,
    pick: spec_fn(int) -> bool,
    size: nat,
    b: int,
)
    requires
        rows_of_size(rows, size),
        0 <= b < size,
    ensures
        select_xor(rows, pick, size).len() == size,
        select_xor(rows, pick, size)[b] == Seq::new(
            rows.len(),
            |i: int|
                if pick(i) {
                    rows[i][b]
                } else {
                    0u8
                },
        ).fold_left(0u8, |acc: u8, x: u8| acc ^ x),
    decreases rows.len(),
{
    lemma_select_len(rows, pick, size);
    let bytes = Seq::new(
        rows.len(),
        |i: int|
            if pick(i) {
                rows[i][b]
            } else {
                0u8
            },
    );
    if rows.len() > 0 {
        let r = rows.drop_last();
        assert forall|i: int| 0 <= i < r.len() implies (#[trigger] r[i]).len() == size by {
            assert(rows[i].len() == size);
        }
        law_selection_of_bytes(r, pick, size, b);
        assert(rows[rows.len() - 1].len() == size);
        assert(bytes.drop_last() =~= Seq::new(
            r.len(),
            |i: int|
                if pick(i) {
                    r[i][b]
                } else {
                    0u8
                },
        ));
        let x = select_xor(r, pick, size)[b];
        assert(x ^ 0u8 == x) by (bit_vector);
    }
}

/// Rows of zeros combine to zeros, whichever are picked.
pub(crate) proof fn lemma_select_zeros(rows: Seq<Seq<u8>>, pick: spec_fn(int) -> bool, size: nat)
    requires
        forall|i: int| 0 <= i < rows.len() ==> #[trigger] rows[i] == zeros(size),
    ensures
        select_xor(rows, pick, size) == zeros(size),
    decreases rows.len(),
{
    if rows.len() > 0 {
        let r = rows.drop_last();
        assert forall|i: int| 0 <= i < r.len() implies #[trigger] r[i] == zeros(size) by {
            assert(rows[i] == zeros(size));
        }
        lemma_select_zeros(r, pick, size);
        assert(rows[rows.len() - 1] == zeros(size));
        assert(0u8 ^ 0u8 == 0u8) by (bit_vector);
        assert(xor_seq(zeros(size), zeros(size)) =~= zeros(size));
    }
}

/// Picking no row gives zeros.
pub(crate) proof fn lemma_select_none(rows: Seq<Seq<u8>>, pick: spec_fn(int) -> bool, size: nat)
    requires
        forall|i: int| 0 <= i < rows.len() ==> !(#[trigger] pick(i)),
    ensures
        select_xor(rows, pick, size) == zeros(size),
    decreases rows.len(),
{
    if rows.len() > 0 {
        lemma_select_none(rows.drop_last(), pick, size);
        assert(!pick(rows.len() - 1));
    }
}

/// Two selections that differ in one row only combine to that row: this is how the answers of two
/// servers, none of which learns the row, yield it.
pub proof fn law_selections_differing_in_one_row(
    rows: Seq<Seq<u8>>,
    p: spec_fn(int) -> bool,
    q: spec_fn(int) -> bool,
    only: int,
    size: nat,
)
    requires
        rows_of_size(rows, size),
        0 <= only < rows.len(),
        forall|i: int| 0 <= i < rows.len() ==> (#[trigger] p(i) != q(i) <==> i == only),
    ensures
        xor_seq(select_xor(rows, p, size), select_xor(rows, q, size)) == rows[only],
{
    law_selections_combine(rows, p, q, size);
    law_select_one(rows, |i: int| p(i) != q(i), only, size);
}

} // verus!
