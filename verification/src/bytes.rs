//! Byte strings: exclusive or, checksums, little-endian numbers and hashes.
use vstd::prelude::*;

#[allow(unused_imports)]
use vstd::arithmetic::div_mod::{
    lemma_fundamental_div_mod, lemma_fundamental_div_mod_converse, lemma_mod_bound,
};
#[allow(unused_imports)]
use vstd::arithmetic::mul::lemma_mul_is_commutative;

verus! {

/// The number of bytes of a hash.
pub const HASH_BYTES: usize = 32;

/// A hash of `HASH_BYTES` bytes.
pub type Hash256 = [u8; 32];

/// Number of bytes from one byte that `touch_pages` reads to the next.
pub const PAGE_BYTES: usize = 4096;

/// Start value of `checksum_bytes`.
pub const CHECKSUM_BASIS: u64 = 0xcbf29ce484222325;

/// Multiplier of `checksum_bytes`.
pub const CHECKSUM_PRIME: u64 = 0x100000001b3;

/// `dst` with `src` combined into it by exclusive or, byte by byte; what lies beyond the end of
/// `src` stays as it is.
pub open spec fn xor_seq(dst: Seq<u8>, src: Seq<u8>) -> Seq<u8> {
    Seq::new(
        dst.len(),
        |i: int|
            if i < src.len() {
                dst[i] ^ src[i]
            } else {
                dst[i]
            },
    )
}

/// The byte string of `n` zeros.
pub open spec fn zeros(n: nat) -> Seq<u8> {
    Seq::new(n, |i: int| 0u8)
}

/// The 64-bit FNV-1a checksum of `data`.
pub open spec fn checksum(data: Seq<u8>) -> u64
    decreases data.len(),
{
    if data.len() == 0 {
        CHECKSUM_BASIS
    } else {
        (checksum(data.drop_last()) ^ (data.last() as u64)).wrapping_mul(CHECKSUM_PRIME)
    }
}

/// Exclusive or of `values`.
pub open spec fn xor_all(values: Seq<u64>) -> u64
    decreases values.len(),
{
    if values.len() == 0 {
        0
    } else {
        xor_all(values.drop_last()) ^ values.last()
    }
}

/// Number of steps of `stride` bytes that it takes to walk over `len` bytes.
pub open spec fn stride_count(len: nat, stride: nat) -> nat {
    (len + stride - 1) as nat / stride
}

/// Exclusive or of the first bytes of the first `pages` pages of `data`.
pub open spec fn page_xor(data: Seq<u8>, pages: nat) -> u8
    decreases pages,
{
    if pages == 0 {
        0
    } else {
        page_xor(data, (pages - 1) as nat) ^ data[(pages - 1) * PAGE_BYTES]
    }
}

/// The little-endian number in two bytes of `data` from `off` on.
pub open spec fn le16(data: Seq<u8>, off: int) -> nat {
    (data[off] + 0x100 * data[off + 1]) as nat
}

/// The little-endian number in four bytes of `data` from `off` on.
pub open spec fn le32(data: Seq<u8>, off: int) -> nat {
    (data[off] + 0x100 * data[off + 1] + 0x1_0000 * data[off + 2] + 0x100_0000 * data[off
        + 3]) as nat
}

/// The bytes of each hash of a list.
pub open spec fn hash_views(hashes: Seq<Hash256>) -> Seq<Seq<u8>> {
    hashes.map_values(|h: Hash256| h@)
}

/// The bytes of each byte string of a list.
pub open spec fn byte_views(rows: Seq<Vec<u8>>) -> Seq<Seq<u8>> {
    rows.map_values(|r: Vec<u8>| r@)
}

/// The all-zero hash, which stands for a tree node that does not exist.
pub open spec fn zero_hash() -> Seq<u8> {
    zeros(HASH_BYTES as nat)
}

/// Combining the same bytes a second time restores what was there before.
pub proof fn law_xor_restores(a: Seq<u8>, b: Seq<u8>)
    ensures
        xor_seq(xor_seq(a, b), b) == a,
{
    assert forall|i: int| 0 <= i < a.len() implies xor_seq(xor_seq(a, b), b)[i] == a[i] by {
        if i < b.len() {
            let x = a[i];
            let y = b[i];
            assert((x ^ y) ^ y == x) by (bit_vector);
        }
    }
    assert(xor_seq(xor_seq(a, b), b) =~= a);
}

/// Of two byte strings of one length it does not matter which is combined into the other.
pub proof fn law_xor_commutes(a: Seq<u8>, b: Seq<u8>)
    requires
        a.len() == b.len(),
    ensures
        xor_seq(a, b) == xor_seq(b, a),
{
    assert forall|i: int| 0 <= i < a.len() implies xor_seq(a, b)[i] == xor_seq(b, a)[i] by {
        let x = a[i];
        let y = b[i];
        assert(x ^ y == y ^ x) by (bit_vector);
    }
    assert(xor_seq(a, b) =~= xor_seq(b, a));
}

/// The steps of `stride` bytes over `len` bytes reach the end, and the last of them is needed.
pub(crate) proof fn lemma_stride_count_bounds(len: nat, stride: nat)
    requires
        stride > 0,
    ensures
        len <= stride_count(len, stride) * stride,
        stride_count(len, stride) * stride < len + stride,
{
    let end = len + stride - 1;
    let steps = stride_count(len, stride);
    lemma_fundamental_div_mod(end, stride as int);
    lemma_mod_bound(end, stride as int);
    lemma_mul_is_commutative(stride as int, steps as int);
}

/// There is one number of steps only that reach the end, the last of them being needed.
pub(crate) proof fn lemma_stride_count(len: nat, stride: nat, steps: nat)
    requires
        stride > 0,
        len <= steps * stride,
        steps * stride < len + stride,
    ensures
        stride_count(len, stride) == steps,
{
    let end = len + stride - 1;
    lemma_fundamental_div_mod_converse(
        end,
        stride as int,
        steps as int,
        end - steps * stride,
    );
}

/// The checksum of the first bytes of `data`, with one more of them.
pub(crate) proof fn lemma_checksum_push(data: Seq<u8>, i: int)
    requires
        0 <= i < data.len(),
    ensures
        checksum(data.take(i + 1)) == (checksum(data.take(i)) ^ (data[i] as u64)).wrapping_mul(
            CHECKSUM_PRIME,
        ),
{
    assert(data.take(i + 1).drop_last() =~= data.take(i));
}

pub(crate) proof fn lemma_xor_all_push(values: Seq<u64>, v: u64)
    ensures
        xor_all(values.push(v)) == xor_all(values) ^ v,
{
    assert(values.push(v).drop_last() =~= values);
}

/// Combines `src` into `dst` by exclusive or.
pub fn xor_into(dst: &mut [u8], src: &[u8])
    ensures
        final(dst)@ == xor_seq(old(dst)@, src@),
{
    let n: usize = if dst.len() < src.len() {
        dst.len()
    } else {
        src.len()
    };
    let mut i: usize = 0;
    while i < n
        invariant
            i <= n,
            n <= dst@.len(),
            n <= src@.len(),
            n == dst@.len() || n == src@.len(),
            dst@.len() == old(dst)@.len(),
            forall|j: int| 0 <= j < i ==> dst@[j] == old(dst)@[j] ^ src@[j],
            forall|j: int| i <= j < dst@.len() ==> dst@[j] == old(dst)@[j],
        decreases n - i,
    {
        dst[i] = dst[i] ^ src[i];
        i = i + 1;
    }
    assert(dst@ =~= xor_seq(old(dst)@, src@));
}

/// The 64-bit FNV-1a checksum of `data`.
pub fn checksum_bytes(data: &[u8]) -> (r: u64)
    ensures
        r == checksum(data@),
{
    let mut acc: u64 = CHECKSUM_BASIS;
    let n: usize = data.len();
    let mut i: usize = 0;
    assert(data@.take(0) =~= Seq::<u8>::empty());
    while i < n
        invariant
            i <= n,
            n == data@.len(),
            acc == checksum(data@.take(i as int)),
        decreases n - i,
    {
        proof {
            lemma_checksum_push(data@, i as int);
        }
        acc = acc ^ (data[i] as u64);
        acc = acc.wrapping_mul(CHECKSUM_PRIME);
        i = i + 1;
    }
    assert(data@.take(n as int) =~= data@);
    acc
}

/// Reads the first byte of every page of `data`, and returns their exclusive or.
pub fn touch_pages(data: &[u8]) -> (r: u64)
    ensures
        r == page_xor(data@, stride_count(data@.len(), PAGE_BYTES as nat)) as u64,
{
    let n: usize = data.len();
    let mut sink: u8 = 0;
    let mut off: usize = 0;
    let ghost mut pages: nat = 0;
    while off < n
        invariant
            off <= n,
            n == data@.len(),
            sink == page_xor(data@, pages),
            off < n ==> off == pages * 4096,
            off == n ==> pages == stride_count(n as nat, 4096),
        decreases n - off,
    {
        sink = sink ^ data[off];
        proof {
            pages = pages + 1;
        }
        if n - off > PAGE_BYTES {
            off = off + PAGE_BYTES;
        } else {
            proof {
                lemma_stride_count(n as nat, PAGE_BYTES as nat, pages);
            }
            off = n;
        }
    }
    sink as u64
}

/// The little-endian number in two bytes of `data` from `off` on.
pub fn read_le16(data: &[u8], off: usize) -> (r: usize)
    requires
        off + 2 <= data@.len(),
    ensures
        r == le16(data@, off as int),
{
    data[off] as usize + 0x100 * (data[off + 1] as usize)
}

/// The little-endian number in four bytes of `data` from `off` on.
pub fn read_le32(data: &[u8], off: usize) -> (r: usize)
    requires
        off + 4 <= data@.len(),
    ensures
        r == le32(data@, off as int),
{
    data[off] as usize + 0x100 * (data[off + 1] as usize) + 0x1_0000 * (data[off + 2] as usize)
        + 0x100_0000 * (data[off + 3] as usize)
}

/// The hash in `data` from `off` on.
pub fn read_hash(data: &[u8], off: usize) -> (r: Hash256)
    requires
        off + HASH_BYTES <= data@.len(),
    ensures
        r@ == data@.subrange(off as int, off + HASH_BYTES),
{
    let mut h: Hash256 = [0u8; 32];
    let n: usize = data.len();
    let mut i: usize = 0;
    while i < HASH_BYTES
        invariant
            i <= HASH_BYTES,
            n == data@.len(),
            off + HASH_BYTES <= n,
            forall|j: int| 0 <= j < i ==> h@[j] == data@[off + j],
        decreases HASH_BYTES - i,
    {
        h[i] = data[off + i];
        i = i + 1;
    }
    assert(h@ =~= data@.subrange(off as int, off + HASH_BYTES));
    h
}

/// The all-zero hash.
pub fn zero_hash_value() -> (r: Hash256)
    ensures
        r@ == zero_hash(),
{
    let h: Hash256 = [0u8; 32];
    assert(h@ =~= zero_hash());
    h
}

/// Whether two byte strings are the same.
pub fn bytes_equal(a: &[u8], b: &[u8]) -> (r: bool)
    ensures
        r == (a@ == b@),
{
    if a.len() != b.len() {
        return false;
    }
    let n: usize = a.len();
    let mut i: usize = 0;
    while i < n
        invariant
            i <= n,
            n == a@.len(),
            n == b@.len(),
            forall|j: int| 0 <= j < i ==> a@[j] == b@[j],
        decreases n - i,
    {
        if a[i] != b[i] {
            return false;
        }
        i = i + 1;
    }
    assert(a@ =~= b@);
    true
}

} // verus!
