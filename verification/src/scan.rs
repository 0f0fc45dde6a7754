//! Scanning a byte range of a file: how much to read next, and the checksum of what was read.
use vstd::prelude::*;

#[allow(unused_imports)]
use crate::bytes::{lemma_stride_count, lemma_stride_count_bounds, stride_count};
#[allow(unused_imports)]
use vstd::arithmetic::div_mod::lemma_fundamental_div_mod;

verus! {

/// Bytes of the read buffer.
pub const SCAN_BUFFER: usize = 8_388_608;

/// Number of bytes from one byte that enters the checksum to the next: a cache line.
pub const CACHE_LINE: usize = 64;

/// How far a scan has come.
#[derive(Clone, Copy, Debug, PartialEq, Eq, Structural)]
pub struct Scan {
    /// Number of bytes to read.
    pub target: u64,
    /// Number of bytes read.
    pub total: u64,
    pub checksum: u64,
}

/// `x` rotated to the left by five bits.
pub open spec fn rotate5(x: u64) -> u64 {
    (x << 5) | (x >> 59)
}

/// `checksum` after the first `lines` cache lines of `chunk`, which lies `total` bytes into the
/// scan: each line enters with its first byte and that byte's place in the scan.
pub open spec fn scan_lines(checksum: u64, total: u64, chunk: Seq<u8>, lines: nat) -> u64
    decreases lines,
{
    if lines == 0 {
        checksum
    } else {
        let i = (lines - 1) * CACHE_LINE;
        rotate5(scan_lines(checksum, total, chunk, (lines - 1) as nat)) ^ (chunk[i] as u64)
            ^ total.wrapping_add(i as u64)
    }
}

impl Scan {
    /// A scan of `target` bytes that has not read anything yet.
    pub fn new(target: u64) -> (r: Scan)
        ensures
            r == (Scan { target, total: 0, checksum: 0 }),
    {
        Scan { target, total: 0, checksum: 0 }
    }

    /// How many bytes to read next, or nothing if all have been read: what is left, but no more
    /// than the buffer holds.
    pub open spec fn wanted(self) -> Option<usize> {
        if self.total < self.target {
            let left = (self.target - self.total) as u64 as usize;
            Some(
                if left < SCAN_BUFFER {
                    left
                } else {
                    SCAN_BUFFER
                },
            )
        } else {
            None
        }
    }

    /// How many bytes to read next, or nothing if all have been read.
    pub fn next_read(&self) -> (r: Option<usize>)
        ensures
            r == self.wanted(),
    {
        if self.total < self.target {
            let left: usize = (self.target - self.total) as usize;
            Some(
                if left < SCAN_BUFFER {
                    left
                } else {
                    SCAN_BUFFER
                },
            )
        } else {
            None
        }
    }

    /// Takes in the bytes that were read, of which there are no more than are left.
    pub fn absorb(&mut self, chunk: &[u8])
        requires
            old(self).total + chunk@.len() <= u64::MAX,
        ensures
            final(self).target == old(self).target,
            final(self).total == old(self).total + chunk@.len(),
            final(self).checksum == scan_lines(
                old(self).checksum,
                old(self).total,
                chunk@,
                stride_count(chunk@.len(), CACHE_LINE as nat),
            ),
    {
        let n: usize = chunk.len();
        let total: u64 = self.total;
        let mut checksum: u64 = self.checksum;
        let ghost checksum0 = checksum;
        let mut i: usize = 0;
        let ghost mut lines: nat = 0;
        while i < n
            invariant
                i <= n,
                n == chunk@.len(),
                checksum == scan_lines(checksum0, total, chunk@, lines),
                i < n ==> i == lines * 64,
                i == n ==> lines == stride_count(n as nat, 64),
            decreases n - i,
        {
            let rotated: u64 = (checksum << 5) | (checksum >> 59);
            checksum = rotated ^ (chunk[i] as u64) ^ total.wrapping_add(i as u64);
            proof {
                lines = lines + 1;
            }
            if n - i > CACHE_LINE {
                i = i + CACHE_LINE;
            } else {
                proof {
                    lemma_stride_count(n as nat, CACHE_LINE as nat, lines);
                }
                i = n;
            }
        }
        self.checksum = checksum;
        self.total = total + n as u64;
    }
}

/// A scan never takes in more than its target: as long as no read returns more than was wanted,
/// the number of bytes read stays within the number to read.
pub proof fn law_scan_stays_within_target(scan: Scan, read: nat)
    requires
        scan.total <= scan.target,
        scan.wanted() is Some,
        read <= scan.wanted()->Some_0,
    ensures
        scan.total + read <= scan.target,
{
    let left = (scan.target - scan.total) as u64;
    assert(left as usize <= left) by (bit_vector);
}

proof fn lemma_scan_split(
    checksum: u64,
    total: u64,
    a: Seq<u8>,
    b: Seq<u8>,
    whole: nat,
    lines: nat,
)
    requires
        a.len() == whole * CACHE_LINE,
        total + a.len() + b.len() <= u64::MAX,
        lines * CACHE_LINE < b.len() + CACHE_LINE,
    ensures
        scan_lines(checksum, total, a + b, whole + lines) == scan_lines(
            scan_lines(checksum, total, a, whole),
            (total + a.len()) as u64,
            b,
            lines,
        ),
    decreases lines,
{
    if lines == 0 {
        lemma_scan_prefix(checksum, total, a, b, whole);
    } else {
        lemma_scan_split(checksum, total, a, b, whole, (lines - 1) as nat);
        let i = (lines - 1) * CACHE_LINE;
        assert((whole + lines - 1) * CACHE_LINE == a.len() + i);
        assert((a + b)[a.len() + i] == b[i]);
    }
}

proof fn lemma_scan_prefix(checksum: u64, total: u64, a: Seq<u8>, b: Seq<u8>, lines: nat)
    requires
        lines * CACHE_LINE < a.len() + CACHE_LINE,
    ensures
        scan_lines(checksum, total, a + b, lines) == scan_lines(checksum, total, a, lines),
    decreases lines,
{
    if lines > 0 {
        lemma_scan_prefix(checksum, total, a, b, (lines - 1) as nat);
        let i = (lines - 1) * CACHE_LINE;
        assert((a + b)[i] == a[i]);
    }
}

/// Reading in two parts gives the same checksum as reading in one, if the first part is a whole
/// number of cache lines.
pub proof fn law_scan_in_parts(checksum: u64, total: u64, a: Seq<u8>, b: Seq<u8>)
    requires
        a.len() % (CACHE_LINE as nat) == 0,
        total + a.len() + b.len() <= u64::MAX,
    ensures
        scan_lines(checksum, total, a + b, stride_count((a + b).len(), CACHE_LINE as nat))
            == scan_lines(
            scan_lines(checksum, total, a, stride_count(a.len(), CACHE_LINE as nat)),
            (total + a.len()) as u64,
            b,
            stride_count(b.len(), CACHE_LINE as nat),
        ),
{
    let line = CACHE_LINE as nat;
    let whole = a.len() / line;
    let lines = stride_count(b.len(), line);
    lemma_fundamental_div_mod(a.len() as int, line as int);
    assert(a.len() == whole * line);
    lemma_stride_count(a.len(), line, whole);
    lemma_stride_count_bounds(b.len(), line);
    assert((whole + lines) * line == whole * line + lines * line);
    assert((a + b).len() == a.len() + b.len());
    lemma_stride_count(a.len() + b.len(), line, whole + lines);
    lemma_scan_split(checksum, total, a, b, whole, lines);
}

/// What is wanted next: nothing exactly where everything has been read, and otherwise what is left
/// or, where that is more, a buffer of eight mebibytes.
pub proof fn law_next_read(scan: Scan)
    ensures
        scan.wanted() is None <==> scan.total >= scan.target,
        scan.wanted() matches Some(n) ==> n <= 8 * 1024 * 1024 && n <= scan.target - scan.total,
        scan.wanted() matches Some(n) ==> scan.target - scan.total <= usize::MAX ==> 0 < n && (n
            == scan.target - scan.total || n == 8 * 1024 * 1024),
{
    if scan.total < scan.target {
        let left = (scan.target - scan.total) as u64;
        assert(left as usize <= left) by (bit_vector);
    }
}

/// A scan whose reads are all filled ends when it has read its target, no earlier and no later:
/// `reads` are the sizes of the reads, and `totals` the numbers of bytes read before each of them
/// and at the end.
pub proof fn law_filled_scan_reads_target(
    target: u64,
    checksum: u64,
    reads: Seq<usize>,
    totals: Seq<u64>,
)
    requires
        target <= usize::MAX,
        totals.len() == reads.len() + 1,
        totals[0] == 0,
        forall|i: int|
            0 <= i < reads.len() ==> (Scan { target, total: totals[i], checksum }).wanted() == Some(
                #[trigger] reads[i],
            ) && totals[i + 1] == totals[i] + reads[i],
        (Scan { target, total: totals.last(), checksum }).wanted() is None,
    ensures
        totals.last() == target,
        forall|i: int| 0 <= i < reads.len() ==> 0 < #[trigger] reads[i],
        forall|i: int| 0 <= i < reads.len() - 1 ==> #[trigger] reads[i] == 8 * 1024 * 1024,
{
    let n = reads.len() as int;
    assert forall|i: int| 0 <= i <= n implies #[trigger] totals[i] <= target by {
        lemma_filled_reads(target, checksum, reads, totals, i);
    }
    law_next_read(Scan { target, total: totals[n], checksum });
    assert forall|i: int| 0 <= i < n implies 0 < #[trigger] reads[i] && (i < n - 1 ==> reads[i] == 8
        * 1024 * 1024) by {
        law_next_read(Scan { target, total: totals[i], checksum });
        if i < n - 1 {
            let next = Scan { target, total: totals[i + 1], checksum };
            law_next_read(next);
            assert(next.wanted() == Some(reads[i + 1]));
        }
    }
}

proof fn lemma_filled_reads(
    target: u64,
    checksum: u64,
    reads: Seq<usize>,
    totals: Seq<u64>,
    i: int,
)
    requires
        0 <= i <= reads.len(),
        totals.len() == reads.len() + 1,
        totals[0] == 0,
        forall|i: int|
            0 <= i < reads.len() ==> (Scan { target, total: totals[i], checksum }).wanted() == Some(
                #[trigger] reads[i],
            ) && totals[i + 1] == totals[i] + reads[i],
    ensures
        totals[i] <= target,
    decreases i,
{
    if i > 0 {
        lemma_filled_reads(target, checksum, reads, totals, i - 1);
        let scan = Scan { target, total: totals[i - 1], checksum };
        law_next_read(scan);
        assert(scan.wanted() == Some(reads[i - 1]));
    }
}

/// What has been read enters the checksum with the first byte of each sixty-four, also of a last
/// piece that is shorter, and that byte's place: before each of them the checksum is rotated by
/// five bits.
pub proof fn law_absorbed_lines(checksum: u64, total: u64, chunk: Seq<u8>, lines: nat)
    requires
        chunk.len() <= lines * 64,
        lines * 64 < chunk.len() + 64,
        total + chunk.len() <= u64::MAX,
    ensures
        scan_lines(checksum, total, chunk, stride_count(chunk.len(), CACHE_LINE as nat))
            == Seq::new(lines, |i: int| i).fold_left(
            checksum,
            |acc: u64, i: int|
                (((acc * 32) % 0x1_0000_0000_0000_0000 + acc / 0x800_0000_0000_0000) as u64) ^ (
                chunk[64 * i] as u64) ^ ((total + 64 * i) as u64),
        ),
{
    lemma_stride_count(chunk.len(), 64, lines);
    lemma_lines_fold(checksum, total, chunk, lines);
}

proof fn lemma_lines_fold(checksum: u64, total: u64, chunk: Seq<u8>, lines: nat)
    requires
        lines * 64 < chunk.len() + 64,
        total + chunk.len() <= u64::MAX,
    ensures
        scan_lines(checksum, total, chunk, lines) == Seq::new(lines, |i: int| i).fold_left(
            checksum,
            |acc: u64, i: int|
                (((acc * 32) % 0x1_0000_0000_0000_0000 + acc / 0x800_0000_0000_0000) as u64) ^ (
                chunk[64 * i] as u64) ^ ((total + 64 * i) as u64),
        ),
    decreases lines,
{
    let all = Seq::new(lines, |i: int| i);
    if lines > 0 {
        let n = (lines - 1) as nat;
        lemma_lines_fold(checksum, total, chunk, n);
        assert(all.drop_last() =~= Seq::new(n, |i: int| i));
        let x = scan_lines(checksum, total, chunk, n);
        assert(((x << 5) | (x >> 59)) == ((x * 32) % 0x1_0000_0000_0000_0000 + x
            / 0x800_0000_0000_0000) as u64) by (bit_vector);
    }
}

} // verus!
