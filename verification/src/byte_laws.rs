//! What exclusive or, checksums, counts and little-endian numbers are, byte by byte.
#[allow(unused_imports)]
use crate::bytes::{
    byte_views, checksum, hash_views, le16, le32, lemma_stride_count, page_xor, stride_count,
    xor_all, xor_seq, zero_hash, zeros, Hash256, PAGE_BYTES,
};
#[allow(unused_imports)]
use crate::tally::{mismatches, row_checksums, rows_checksum};
#[allow(unused_imports)]
use crate::timing::{elapsed, longer, total_time};
#[allow(unused_imports)]
use vstd::arithmetic::div_mod::{
    lemma_mul_mod_noop_left, lemma_mul_mod_noop_right, lemma_small_mod,
};
use vstd::prelude::*;

verus! {

/// Combining two byte strings combines the bytes at each place, and leaves those at places that
/// the second does not have.
pub proof fn law_xor_each_byte(a: Seq<u8>, b: Seq<u8>)
    ensures
        xor_seq(a, b).len() == a.len(),
        forall|i: int|
            0 <= i < a.len() && i < b.len() ==> #[trigger] xor_seq(a, b)[i] == a[i] ^ b[i],
        forall|i: int| b.len() <= i < a.len() ==> #[trigger] xor_seq(a, b)[i] == a[i],
{
}

/// A string of zeros has the length that was asked for and holds nothing else, and the hash of a
/// node that does not exist is one of thirty-two.
pub proof fn law_zeros_are_zero(n: nat)
    ensures
        zeros(n).len() == n,
        forall|i: int| 0 <= i < n ==> #[trigger] zeros(n)[i] == 0,
        zero_hash() == zeros(32),
{
}

/// The exclusive or of a list of numbers takes in every one of them.
pub proof fn law_xor_of_numbers(values: Seq<u64>)
    ensures
        xor_all(values) == values.fold_left(0u64, |acc: u64, v: u64| acc ^ v),
    decreases values.len(),
{
    if values.len() > 0 {
        law_xor_of_numbers(values.drop_last());
    }
}

/// A checksum takes in every byte, one after the other: it is combined with the byte, and
/// multiplied modulo 2^64.
pub proof fn law_checksum_of_bytes(data: Seq<u8>)
    ensures
        checksum(data) == data.fold_left(
            0xcbf2_9ce4_8422_2325u64,
            |acc: u64, b: u8|
                (((acc ^ (b as u64)) * 0x100_0000_01b3) % 0x1_0000_0000_0000_0000) as u64,
        ),
    decreases data.len(),
{
    if data.len() > 0 {
        law_checksum_of_bytes(data.drop_last());
    }
}

/// The failures that are counted are the places where the answer is not the expected one.
pub proof fn law_mismatches_counted(got: Seq<Seq<u8>>, expected: Seq<Seq<u8>>)
    ensures
        Set::<int>::new(|i: int| 0 <= i < got.len() && got[i] != expected[i]).finite(),
        mismatches(got, expected) == Set::<int>::new(
            |i: int| 0 <= i < got.len() && got[i] != expected[i],
        ).len(),
    decreases got.len(),
{
    let all = Set::<int>::new(|i: int| 0 <= i < got.len() && got[i] != expected[i]);
    if got.len() == 0 {
        assert(all =~= Set::empty());
    } else {
        let rest = got.drop_last();
        let n = got.len() - 1;
        let before = Set::<int>::new(|i: int| 0 <= i < rest.len() && rest[i] != expected[i]);
        law_mismatches_counted(rest, expected);
        if got[n] != expected[n] {
            assert(all =~= before.insert(n));
        } else {
            assert(all =~= before);
        }
    }
}

/// The checksum of several byte strings takes in the checksum of every one of them.
pub proof fn law_checksum_of_rows(rows: Seq<Seq<u8>>)
    ensures
        rows_checksum(rows) == rows.fold_left(
            0u64,
            |acc: u64, row: Seq<u8>| acc ^ checksum(row),
        ),
    decreases rows.len(),
{
    if rows.len() > 0 {
        law_checksum_of_rows(rows.drop_last());
        assert(row_checksums(rows).drop_last() =~= row_checksums(rows.drop_last()));
    } else {
        assert(row_checksums(rows).len() == 0);
    }
}

/// No two byte strings of one length that differ in one byte have the same checksum.
pub proof fn law_checksum_tells_one_byte(data: Seq<u8>, at: int, byte: u8)
    requires
        0 <= at < data.len(),
        byte != data[at],
    ensures
        checksum(data.update(at, byte)) != checksum(data),
    decreases data.len(),
{
    let other = data.update(at, byte);
    let n = data.len() - 1;
    let rest = data.drop_last();
    let x = checksum(rest) ^ (data[n] as u64);
    if at == n {
        assert(other.drop_last() =~= rest);
        let (p, q) = (data[n] as u64, byte as u64);
        let c = checksum(rest);
        assert(p != q ==> c ^ p != c ^ q) by (bit_vector);
        lemma_prime_multiple_tells(x, c ^ q);
    } else {
        law_checksum_tells_one_byte(rest, at, byte);
        assert(other.drop_last() =~= rest.update(at, byte));
        let (c, d) = (checksum(rest), checksum(rest.update(at, byte)));
        let p = data[n] as u64;
        assert(c != d ==> c ^ p != d ^ p) by (bit_vector);
        lemma_prime_multiple_tells(x, d ^ p);
    }
}

/// Different numbers have different products with the multiplier of checksums.
proof fn lemma_prime_multiple_tells(x: u64, y: u64)
    requires
        x != y,
    ensures
        x.wrapping_mul(0x100_0000_01b3) != y.wrapping_mul(0x100_0000_01b3),
{
    lemma_odd_multiple_tells(x, y, 0x100_0000_01b3, 0xce96_5057_aff6_957b);
}

/// Where a multiplier has an inverse modulo 2^64, different numbers have different products.
pub(crate) proof fn lemma_odd_multiple_tells(x: u64, y: u64, factor: u64, inverse: u64)
    requires
        x != y,
        (factor * inverse) % 0x1_0000_0000_0000_0000 == 1,
    ensures
        x.wrapping_mul(factor) != y.wrapping_mul(factor),
{
    lemma_inverse_restores(x, factor, inverse);
    lemma_inverse_restores(y, factor, inverse);
}

proof fn lemma_inverse_restores(x: u64, factor: u64, inverse: u64)
    requires
        (factor * inverse) % 0x1_0000_0000_0000_0000 == 1,
    ensures
        (x.wrapping_mul(factor) * inverse) % 0x1_0000_0000_0000_0000 == x,
{
    let m: int = 0x1_0000_0000_0000_0000;
    let (a, f, i) = (x as int, factor as int, inverse as int);
    lemma_mul_mod_noop_left(a * f, i, m);
    assert((a * f) * i == a * (f * i)) by (nonlinear_arith);
    lemma_mul_mod_noop_right(a, f * i, m);
    lemma_small_mod(x as nat, m as nat);
}

/// Touching the pages of a file takes in the first byte of every page, also of a last one that is
/// not whole.
pub proof fn law_touched_pages(data: Seq<u8>, pages: nat)
    requires
        data.len() <= pages * 4096,
        pages * 4096 < data.len() + 4096,
    ensures
        page_xor(data, stride_count(data.len(), PAGE_BYTES as nat)) == Seq::new(
            pages,
            |i: int| data[4096 * i],
        ).fold_left(0u8, |acc: u8, b: u8| acc ^ b),
{
    lemma_stride_count(data.len(), 4096, pages);
    lemma_page_fold(data, pages);
}

proof fn lemma_page_fold(data: Seq<u8>, pages: nat)
    ensures
        page_xor(data, pages) == Seq::new(pages, |i: int| data[4096 * i]).fold_left(
            0u8,
            |acc: u8, b: u8| acc ^ b,
        ),
    decreases pages,
{
    let firsts = Seq::new(pages, |i: int| data[4096 * i]);
    if pages > 0 {
        lemma_page_fold(data, (pages - 1) as nat);
        assert(firsts.drop_last() =~= Seq::new((pages - 1) as nat, |i: int| data[4096 * i]));
    }
}

/// A number that was written with its least significant byte first is read back.
pub proof fn law_numbers_are_read_back(data: Seq<u8>, off: int, short: u16, long: u32)
    ensures
        data[off] == short % 0x100 && data[off + 1] == short / 0x100 ==> le16(data, off) == short,
        data[off] == long % 0x100 && data[off + 1] == long / 0x100 % 0x100 && data[off + 2] == long
            / 0x1_0000 % 0x100 && data[off + 3] == long / 0x100_0000 ==> le32(data, off) == long,
{
}

/// The lists of byte strings that contracts speak of hold the bytes of each of them.
pub proof fn law_views_hold_all(hashes: Seq<Hash256>, rows: Seq<Vec<u8>>)
    ensures
        hash_views(hashes).len() == hashes.len(),
        forall|i: int| 0 <= i < hashes.len() ==> #[trigger] hash_views(hashes)[i] == hashes[i]@,
        byte_views(rows).len() == rows.len(),
        forall|i: int| 0 <= i < rows.len() ==> #[trigger] byte_views(rows)[i] == rows[i]@,
{
}

/// A sum of times takes in every one of them.
pub proof fn law_sum_of_times(times: Seq<u128>)
    ensures
        total_time(times) == times.fold_left(0int, |acc: int, t: u128| acc + t),
    decreases times.len(),
{
    if times.len() > 0 {
        law_sum_of_times(times.drop_last());
    }
}

/// Two servers side by side take as long as the one that takes longer, and a phase as long as lies
/// between its two readings of the clock.
pub proof fn law_times_compare(a: u128, b: u128)
    ensures
        longer(a, b) >= a,
        longer(a, b) >= b,
        longer(a, b) == a || longer(a, b) == b,
        a <= b ==> elapsed(a, b) + a == b,
        a > b ==> elapsed(a, b) == 0,
{
}

} // verus!
