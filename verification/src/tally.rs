//! Counting the answers that differ from what was expected, and their checksum.
use crate::bytes::{checksum, xor_all};
use vstd::prelude::*;

verus! {

/// The outcome of a verification.
#[derive(Clone, Copy, Debug, PartialEq, Eq, Structural)]
pub struct Verdict {
    pub failures: usize,
    pub checksum: u64,
}

/// At how many positions `got` differs from `expected`.
pub open spec fn mismatches(got: Seq<Seq<u8>>, expected: Seq<Seq<u8>>) -> nat
    decreases got.len(),
{
    if got.len() == 0 {
        0
    } else {
        mismatches(got.drop_last(), expected) + if got.last() != expected[got.len() - 1] {
            1nat
        } else {
            0nat
        }
    }
}

/// The checksum of each of `rows`.
pub open spec fn row_checksums(rows: Seq<Seq<u8>>) -> Seq<u64> {
    rows.map_values(|r: Seq<u8>| checksum(r))
}

/// Exclusive or of the checksums of `rows`.
pub open spec fn rows_checksum(rows: Seq<Seq<u8>>) -> u64 {
    xor_all(row_checksums(rows))
}

pub(crate) proof fn lemma_tally_push(got: Seq<Seq<u8>>, expected: Seq<Seq<u8>>, i: int)
    requires
        0 <= i < got.len(),
        got.len() == expected.len(),
    ensures
        mismatches(got.take(i + 1), expected) == mismatches(got.take(i), expected) + if got[i]
            != expected[i] {
            1nat
        } else {
            0nat
        },
        rows_checksum(got.take(i + 1)) == rows_checksum(got.take(i)) ^ checksum(got[i]),
{
    assert(got.take(i + 1).drop_last() =~= got.take(i));
    assert(row_checksums(got.take(i + 1)).drop_last() =~= row_checksums(got.take(i)));
}

pub(crate) proof fn lemma_mismatches_bound(got: Seq<Seq<u8>>, expected: Seq<Seq<u8>>)
    ensures
        mismatches(got, expected) <= got.len(),
    decreases got.len(),
{
    if got.len() > 0 {
        lemma_mismatches_bound(got.drop_last(), expected);
    }
}

/// No failure is counted exactly where every answer is the expected one.
pub proof fn law_no_mismatch_iff_equal(got: Seq<Seq<u8>>, expected: Seq<Seq<u8>>)
    requires
        got.len() == expected.len(),
    ensures
        mismatches(got, expected) == 0 <==> got == expected,
{
    lemma_no_mismatch(got, expected);
    if mismatches(got, expected) == 0 {
        assert(got =~= expected);
    }
}

proof fn lemma_no_mismatch(got: Seq<Seq<u8>>, expected: Seq<Seq<u8>>)
    requires
        got.len() <= expected.len(),
    ensures
        mismatches(got, expected) == 0 <==> (forall|i: int|
            0 <= i < got.len() ==> got[i] == expected[i]),
    decreases got.len(),
{
    if got.len() > 0 {
        lemma_no_mismatch(got.drop_last(), expected);
        if mismatches(got, expected) == 0 {
            assert forall|i: int| 0 <= i < got.len() implies got[i] == expected[i] by {
                if i < got.len() - 1 {
                    assert(got.drop_last()[i] == expected[i]);
                }
            }
        } else if forall|i: int| 0 <= i < got.len() ==> got[i] == expected[i] {
            assert forall|i: int| 0 <= i < got.len() - 1 implies got.drop_last()[i]
                == expected[i] by {
                assert(got[i] == expected[i]);
            }
            assert(got[got.len() - 1] == expected[got.len() - 1]);
        }
    }
}

} // verus!
