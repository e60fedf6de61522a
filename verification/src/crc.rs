//! The AccurateRip checksum engine: both checksum variants ("v1" and
//! "v2") over a track's raw PCM samples, computed in one scan, either
//! sequentially or as a combination of per-chunk partial sums.
//!
//! A sample is one 32-bit little-endian word (4 bytes). Samples are
//! numbered from 1; on the first track of a disc the first five frames
//! of samples are excluded, on the last track the final five frames.
//! Each included sample contributes its position times its value: v1
//! keeps the low 32 bits of that product, v2 adds the product's high
//! and low 32-bit halves. All accumulation wraps at 32 bits, which
//! makes the contributions combinable in any order or grouping.

use vstd::arithmetic::div_mod::{lemma_add_mod_noop, lemma_fundamental_div_mod};
use vstd::arithmetic::mul::{lemma_mul_inequality, lemma_mul_is_distributive_add_other_way,
    lemma_mul_upper_bound};
use vstd::prelude::*;

use rayon::iter::IndexedParallelIterator;
use rayon::iter::ParallelIterator;
use rayon::slice::ParallelSlice;

use crate::ArError;

verus! {

pub type CRC = u32;

/// Both checksum variants for one track.
#[derive(Clone, Copy, Debug, PartialEq, Eq, Structural)]
pub struct CRCs {
    pub v1: CRC,
    pub v2: CRC,
}

/// Samples excluded at the head of a disc's first track and at the tail
/// of its last track: five frames of 588 samples each.
pub const SKIP_SAMPLES: usize = 2940;

/// The value of the 4-byte little-endian sample at index `j` of `b`.
pub open spec fn sample_at(b: Seq<u8>, j: int) -> int
    recommends
        0 <= j,
        4 * j + 4 <= b.len(),
{
    b[4 * j] + 0x100 * b[4 * j + 1] + 0x1_0000 * b[4 * j + 2] + 0x100_0000 * b[4 * j + 3]
}

/// The v1 contribution of the sample with value `s` at 1-based position
/// `p`, where positions `lo..=hi` are included: the position-weighted
/// product, before truncation to 32 bits.
pub open spec fn v1_term(p: int, s: int, lo: int, hi: int) -> int {
    if lo <= p && p <= hi {
        p * s
    } else {
        0
    }
}

/// The v2 contribution: the high and low 32-bit halves of the full
/// position-weighted product, added together.
pub open spec fn v2_term(p: int, s: int, lo: int, hi: int) -> int {
    if lo <= p && p <= hi {
        (p * s) / 0x1_0000_0000 + (p * s) % 0x1_0000_0000
    } else {
        0
    }
}

/// Sum of the v1 contributions of the first `m` samples of `b`, where
/// local sample `j` has global 1-based position `start + j + 1`.
pub open spec fn v1_sum(b: Seq<u8>, start: int, m: int, lo: int, hi: int) -> int
    decreases m,
{
    if m <= 0 {
        0
    } else {
        v1_sum(b, start, m - 1, lo, hi) + v1_term(start + m, sample_at(b, m - 1), lo, hi)
    }
}

/// Sum of the v2 contributions of the first `m` samples of `b`.
pub open spec fn v2_sum(b: Seq<u8>, start: int, m: int, lo: int, hi: int) -> int
    decreases m,
{
    if m <= 0 {
        0
    } else {
        v2_sum(b, start, m - 1, lo, hi) + v2_term(start + m, sample_at(b, m - 1), lo, hi)
    }
}

/// First included 1-based sample position of a track.
pub open spec fn spec_window_lo(is_first: bool) -> int {
    if is_first {
        2941
    } else {
        1
    }
}

/// Last included 1-based sample position of a track with `n` samples
/// (zero when the tail exclusion swallows the whole track).
pub open spec fn spec_window_hi(n: int, is_last: bool) -> int {
    let h = if is_last {
        n - 2940
    } else {
        n
    };
    if h < 0 {
        0
    } else {
        h
    }
}

/// The checksums of a whole track of `b.len() / 4` samples.
pub open spec fn spec_crcs(b: Seq<u8>, is_first: bool, is_last: bool) -> CRCs
    recommends
        b.len() % 4 == 0,
{
    let n = b.len() as int / 4;
    let lo = spec_window_lo(is_first);
    let hi = spec_window_hi(n, is_last);
    CRCs {
        v1: (v1_sum(b, 0, n, lo, hi) % 0x1_0000_0000) as u32,
        v2: (v2_sum(b, 0, n, lo, hi) % 0x1_0000_0000) as u32,
    }
}

/// Addition modulo `2^32`.
fn wrap_add32(a: u32, b: u32) -> (r: u32)
    ensures
        r == (a + b) % 0x1_0000_0000,
{
    proof {
        if a + b <= u32::MAX {
            vstd::arithmetic::div_mod::lemma_small_mod((a + b) as nat, 0x1_0000_0000);
        }
    }
    a.wrapping_add(b)
}

/// Multiplication modulo `2^32`.
fn wrap_mul32(a: u32, b: u32) -> (r: u32)
    ensures
        r == (a * b) % 0x1_0000_0000,
{
    a.wrapping_mul(b)
}

/// Computes the wrapped partial checksums of the `chunk.len() / 4`
/// samples in `chunk`, whose first sample has global 0-based index
/// `start` (1-based position `start + 1`).
pub fn crc_partial(chunk: &[u8], start: usize, lo: usize, hi: usize) -> (r: (u32, u32))
    requires
        chunk@.len() % 4 == 0,
        start + chunk@.len() / 4 < 0x1_0000_0000,
    ensures
        r.0 == v1_sum(chunk@, start as int, chunk@.len() as int / 4, lo as int, hi as int)
            % 0x1_0000_0000,
        r.1 == v2_sum(chunk@, start as int, chunk@.len() as int / 4, lo as int, hi as int)
            % 0x1_0000_0000,
{
    let ghost c = chunk@;
    let clen = chunk.len();
    let m = clen / 4;
    let mut v1: u32 = 0;
    let mut v2: u32 = 0;
    let mut j: usize = 0;

    while j < m
        invariant
            chunk@ == c,
            c.len() % 4 == 0,
            c.len() <= usize::MAX,
            m == c.len() / 4,
            start + m < 0x1_0000_0000,
            0 <= j <= m,
            v1 == v1_sum(c, start as int, j as int, lo as int, hi as int) % 0x1_0000_0000,
            v2 == v2_sum(c, start as int, j as int, lo as int, hi as int) % 0x1_0000_0000,
        decreases m - j,
    {
        proof {
            lemma_fundamental_div_mod(c.len() as int, 4);
            assert(c.len() == 4 * m);
            assert(4 * j + 3 < c.len());
        }
        let b0 = chunk[4 * j];
        let b1 = chunk[4 * j + 1];
        let b2 = chunk[4 * j + 2];
        let b3 = chunk[4 * j + 3];
        let s: u32 = b0 as u32 + 0x100 * b1 as u32 + 0x1_0000 * b2 as u32 + 0x100_0000 * b3 as u32;
        proof {
            assert(s == sample_at(c, j as int));
        }

        let p: usize = start + j + 1;
        let ghost s1 = v1_sum(c, start as int, j as int, lo as int, hi as int);
        let ghost s2 = v2_sum(c, start as int, j as int, lo as int, hi as int);
        let ghost t1 = v1_term(p as int, s as int, lo as int, hi as int);
        let ghost t2 = v2_term(p as int, s as int, lo as int, hi as int);
        proof {
            assert(v1_sum(c, start as int, j + 1, lo as int, hi as int) == s1 + t1);
            assert(v2_sum(c, start as int, j + 1, lo as int, hi as int) == s2 + t2);
        }

        if lo <= p && p <= hi {
            proof {
                assert(t1 == p * s);
                lemma_mul_upper_bound(p as int, 0xFFFF_FFFF, s as int, 0xFFFF_FFFF);
            }
            let term1 = wrap_mul32(p as u32, s);
            proof {
                assert(term1 == (p * s) % 0x1_0000_0000);
                lemma_add_mod_noop(s1, t1, 0x1_0000_0000);
            }
            v1 = wrap_add32(v1, term1);

            let prod: u64 = (p as u64) * (s as u64);
            proof {
                assert(prod == p * s);
            }
            let prod_lo: u32 = (prod % 0x1_0000_0000) as u32;
            let prod_hi: u32 = (prod / 0x1_0000_0000) as u32;
            let term2 = wrap_add32(prod_hi, prod_lo);
            proof {
                assert(t2 == prod / 0x1_0000_0000 + prod % 0x1_0000_0000);
                assert(term2 == t2 % 0x1_0000_0000) by {
                    vstd::arithmetic::div_mod::lemma_mod_bound(prod as int, 0x1_0000_0000);
                }
                lemma_add_mod_noop(s2, t2, 0x1_0000_0000);
            }
            v2 = wrap_add32(v2, term2);
        } else {
            proof {
                assert(t1 == 0);
                assert(t2 == 0);
            }
        }

        j = j + 1;
    }

    (v1, v2)
}

/// How many chunks a track of `n` samples falls into at `spc` samples
/// per chunk: `n / spc`, rounded up.
pub open spec fn num_chunks(n: int, spc: int) -> int
    recommends
        spc >= 1,
{
    (n + spc - 1) / spc
}

/// How many samples chunk `i` holds: `spc`, except for a shorter final
/// chunk.
pub open spec fn chunk_size(n: int, spc: int, i: int) -> int {
    if (i + 1) * spc <= n {
        spc
    } else {
        n - i * spc
    }
}

/// The bytes of chunk `i` of buffer `b`.
pub open spec fn chunk_bytes(b: Seq<u8>, spc: int, i: int) -> Seq<u8> {
    b.subrange(4 * (i * spc), 4 * (i * spc) + 4 * chunk_size(b.len() as int / 4, spc, i))
}

/// Sum of the v1 contributions of the first `k` chunks, each taken with
/// its global sample positions.
pub open spec fn chunks_v1_total(b: Seq<u8>, spc: int, k: int, lo: int, hi: int) -> int
    decreases k,
{
    if k <= 0 {
        0
    } else {
        chunks_v1_total(b, spc, k - 1, lo, hi) + v1_sum(
            chunk_bytes(b, spc, k - 1),
            (k - 1) * spc,
            chunk_size(b.len() as int / 4, spc, k - 1),
            lo,
            hi,
        )
    }
}

/// Sum of the v2 contributions of the first `k` chunks.
pub open spec fn chunks_v2_total(b: Seq<u8>, spc: int, k: int, lo: int, hi: int) -> int
    decreases k,
{
    if k <= 0 {
        0
    } else {
        chunks_v2_total(b, spc, k - 1, lo, hi) + v2_sum(
            chunk_bytes(b, spc, k - 1),
            (k - 1) * spc,
            chunk_size(b.len() as int / 4, spc, k - 1),
            lo,
            hi,
        )
    }
}

/// Two buffers that agree on their first `4 * m` bytes have the same
/// partial sums over those `m` samples.
proof fn lemma_sum_agree(c1: Seq<u8>, c2: Seq<u8>, start: int, m: int, lo: int, hi: int)
    requires
        0 <= m,
        4 * m <= c1.len(),
        4 * m <= c2.len(),
        forall|k: int| 0 <= k < 4 * m ==> c1[k] == c2[k],
    ensures
        v1_sum(c1, start, m, lo, hi) == v1_sum(c2, start, m, lo, hi),
        v2_sum(c1, start, m, lo, hi) == v2_sum(c2, start, m, lo, hi),
    decreases m,
{
    if m > 0 {
        lemma_sum_agree(c1, c2, start, m - 1, lo, hi);
        assert(c1[4 * (m - 1)] == c2[4 * (m - 1)]);
        assert(c1[4 * (m - 1) + 1] == c2[4 * (m - 1) + 1]);
        assert(c1[4 * (m - 1) + 2] == c2[4 * (m - 1) + 2]);
        assert(c1[4 * (m - 1) + 3] == c2[4 * (m - 1) + 3]);
        assert(sample_at(c1, m - 1) == sample_at(c2, m - 1));
    }
}

/// The sums over samples `[0, m2)` of `b` split at any `m1` into the
/// sums over `[0, m1)` and the sums over the rest, taken with shifted
/// positions.
proof fn lemma_sum_split(b: Seq<u8>, start: int, m1: int, m2: int, lo: int, hi: int)
    requires
        0 <= m1 <= m2,
        4 * m2 <= b.len(),
    ensures
        v1_sum(b, start, m2, lo, hi) == v1_sum(b, start, m1, lo, hi) + v1_sum(
            b.subrange(4 * m1, b.len() as int),
            start + m1,
            m2 - m1,
            lo,
            hi,
        ),
        v2_sum(b, start, m2, lo, hi) == v2_sum(b, start, m1, lo, hi) + v2_sum(
            b.subrange(4 * m1, b.len() as int),
            start + m1,
            m2 - m1,
            lo,
            hi,
        ),
    decreases m2 - m1,
{
    if m2 > m1 {
        let sub = b.subrange(4 * m1, b.len() as int);
        lemma_sum_split(b, start, m1, m2 - 1, lo, hi);
        assert(sub[4 * (m2 - 1 - m1)] == b[4 * (m2 - 1)]);
        assert(sub[4 * (m2 - 1 - m1) + 1] == b[4 * (m2 - 1) + 1]);
        assert(sub[4 * (m2 - 1 - m1) + 2] == b[4 * (m2 - 1) + 2]);
        assert(sub[4 * (m2 - 1 - m1) + 3] == b[4 * (m2 - 1) + 3]);
        assert(sample_at(sub, m2 - 1 - m1) == sample_at(b, m2 - 1));
    }
}

/// Basic facts about the rounded-up chunk count.
proof fn lemma_ceil_div(n: int, spc: int)
    requires
        n >= 0,
        spc >= 1,
    ensures
        num_chunks(n, spc) >= 0,
        n <= num_chunks(n, spc) * spc,
        n > 0 ==> (num_chunks(n, spc) - 1) * spc < n,
        n == 0 ==> num_chunks(n, spc) == 0,
{
    let q = num_chunks(n, spc);
    lemma_fundamental_div_mod(n + spc - 1, spc);
    vstd::arithmetic::div_mod::lemma_mod_bound(n + spc - 1, spc);
    vstd::arithmetic::div_mod::lemma_div_pos_is_pos(n + spc - 1, spc);
    vstd::arithmetic::mul::lemma_mul_is_distributive_sub_other_way(spc, q, 1);
    if n == 0 {
        vstd::arithmetic::div_mod::lemma_basic_div(spc - 1, spc);
    }
}

/// The first `k` chunks of a track cover exactly its first
/// `min(k * spc, n)` samples, so their totals agree.
proof fn lemma_chunks_prefix(b: Seq<u8>, spc: int, k: int, lo: int, hi: int)
    requires
        b.len() % 4 == 0,
        spc >= 1,
        0 <= k <= num_chunks(b.len() as int / 4, spc),
    ensures
        chunks_v1_total(b, spc, k, lo, hi) == v1_sum(
            b,
            0,
            vstd::math::min(k * spc, b.len() as int / 4),
            lo,
            hi,
        ),
        chunks_v2_total(b, spc, k, lo, hi) == v2_sum(
            b,
            0,
            vstd::math::min(k * spc, b.len() as int / 4),
            lo,
            hi,
        ),
    decreases k,
{
    let n = b.len() as int / 4;
    lemma_fundamental_div_mod(b.len() as int, 4);
    lemma_ceil_div(n, spc);
    if k > 0 {
        let nch = num_chunks(n, spc);
        lemma_chunks_prefix(b, spc, k - 1, lo, hi);
        lemma_mul_inequality(k - 1, nch - 1, spc);
        lemma_mul_is_distributive_add_other_way(spc, k - 1, 1);
        let e1 = (k - 1) * spc;
        assert(e1 <= n);
        let e2 = vstd::math::min(k * spc, n);
        assert(chunk_size(n, spc, k - 1) == e2 - e1);
        lemma_sum_split(b, 0, e1, e2, lo, hi);
        let sub = b.subrange(4 * e1, b.len() as int);
        let cb = chunk_bytes(b, spc, k - 1);
        assert(cb.len() == 4 * (e2 - e1));
        assert(forall|t: int| 0 <= t < 4 * (e2 - e1) ==> cb[t] == sub[t]);
        lemma_sum_agree(cb, sub, e1, e2 - e1, lo, hi);
    } else {
        assert(k * spc == 0) by (nonlinear_arith)
            requires
                k == 0,
        ;
        assert(chunks_v1_total(b, spc, k, lo, hi) == 0);
        assert(v1_sum(b, 0, 0, lo, hi) == 0);
    }
}

/// The heart of the parallel design: for any chunk size, the per-chunk
/// partial sums of a track combine to exactly the whole-track sums, so
/// a chunked (or parallel) computation and the sequential scan agree.
pub proof fn lemma_chunk_partition(b: Seq<u8>, spc: int, lo: int, hi: int)
    requires
        b.len() % 4 == 0,
        spc >= 1,
    ensures
        chunks_v1_total(b, spc, num_chunks(b.len() as int / 4, spc), lo, hi) == v1_sum(
            b,
            0,
            b.len() as int / 4,
            lo,
            hi,
        ),
        chunks_v2_total(b, spc, num_chunks(b.len() as int / 4, spc), lo, hi) == v2_sum(
            b,
            0,
            b.len() as int / 4,
            lo,
            hi,
        ),
{
    let n = b.len() as int / 4;
    lemma_fundamental_div_mod(b.len() as int, 4);
    lemma_ceil_div(n, spc);
    lemma_chunks_prefix(b, spc, num_chunks(n, spc), lo, hi);
}

/// The wrapped partial checksums of chunk `i` of buffer `b`, its
/// samples taken with their global positions.
pub open spec fn spec_chunk_partial(b: Seq<u8>, spc: int, i: int, lo: int, hi: int) -> (u32, u32) {
    let n = b.len() as int / 4;
    (
        (v1_sum(chunk_bytes(b, spc, i), i * spc, chunk_size(n, spc, i), lo, hi)
            % 0x1_0000_0000) as u32,
        (v2_sum(chunk_bytes(b, spc, i), i * spc, chunk_size(n, spc, i), lo, hi)
            % 0x1_0000_0000) as u32,
    )
}

/// Computes the partial checksums of chunk `i` of a track, given the
/// chunk's bytes and the track-wide chunk size, so the chunk's samples
/// keep their global positions.
fn crc_partial_chunk(i: usize, spc: usize, chunk: &[u8], lo: usize, hi: usize) -> (r: (u32, u32))
    requires
        chunk@.len() % 4 == 0,
        i * spc + chunk@.len() / 4 < 0x1_0000_0000,
    ensures
        r.0 == v1_sum(chunk@, i * spc, chunk@.len() as int / 4, lo as int, hi as int)
            % 0x1_0000_0000,
        r.1 == v2_sum(chunk@, i * spc, chunk@.len() as int / 4, lo as int, hi as int)
            % 0x1_0000_0000,
{
    let start = i * spc;
    crc_partial(chunk, start, lo, hi)
}

/// Relies on rayon's `par_chunks`, `enumerate`, `map` and `collect`:
/// `par_chunks(c)` yields the slice's non-overlapping chunks in order,
/// each of length `c` except a possibly shorter last one; `enumerate`
/// pairs each chunk with its index; and `collect` into a `Vec` keeps
/// the order of this indexed iterator. Each element of the result is
/// therefore what [`crc_partial_chunk`] returns for that chunk.
#[verifier::external_body]
fn par_crc_partials(bytes: &[u8], samples_per_chunk: usize, lo: usize, hi: usize) -> (r: Vec<
    (u32, u32),
>)
    requires
        bytes@.len() % 4 == 0,
        bytes@.len() < 0x4_0000_0000,
        1 <= samples_per_chunk,
        4 * samples_per_chunk <= usize::MAX,
    ensures
        r@.len() == num_chunks(bytes@.len() as int / 4, samples_per_chunk as int),
        forall|i: int|
            0 <= i < r@.len() ==> r@[i] == spec_chunk_partial(
                bytes@,
                samples_per_chunk as int,
                i,
                lo as int,
                hi as int,
            ),
{
    bytes.par_chunks(4 * samples_per_chunk).enumerate().map(
        |(i, chunk)| crc_partial_chunk(i, samples_per_chunk, chunk, lo, hi),
    ).collect()
}

/// Computes both checksum variants of one track by splitting its
/// samples into chunks of `samples_per_chunk`, computing each chunk's
/// partial sums in parallel with global sample positions, and combining
/// the partials with wrapping addition. Returns exactly what the
/// sequential scan returns, for every chunk size. Fails with
/// [`ArError::MalformedAudio`] if and only if the byte count is not a
/// multiple of the 4-byte sample size.
pub fn calc_ar_crcs_chunked(
    track_audio_bytes: &[u8],
    is_first: bool,
    is_last: bool,
    samples_per_chunk: usize,
) -> (r: Result<CRCs, ArError>)
    requires
        track_audio_bytes@.len() < 0x4_0000_0000,
        1 <= samples_per_chunk,
        4 * samples_per_chunk <= usize::MAX,
    ensures
        track_audio_bytes@.len() % 4 != 0 ==> r == Err::<CRCs, ArError>(ArError::MalformedAudio),
        track_audio_bytes@.len() % 4 == 0 ==> r == Ok::<CRCs, ArError>(
            spec_crcs(track_audio_bytes@, is_first, is_last),
        ),
{
    let ghost b = track_audio_bytes@;
    if track_audio_bytes.len() % 4 != 0 {
        return Err(ArError::MalformedAudio);
    }
    let n = track_audio_bytes.len() / 4;
    let lo: usize = if is_first {
        SKIP_SAMPLES + 1
    } else {
        1
    };
    let hi: usize = if is_last {
        if n >= SKIP_SAMPLES {
            n - SKIP_SAMPLES
        } else {
            0
        }
    } else {
        n
    };
    let ghost spc = samples_per_chunk as int;

    let parts = par_crc_partials(track_audio_bytes, samples_per_chunk, lo, hi);

    let mut v1: u32 = 0;
    let mut v2: u32 = 0;
    let mut k: usize = 0;
    let nparts = parts.len();

    while k < nparts
        invariant
            nparts == parts@.len(),
            parts@.len() == num_chunks(b.len() as int / 4, spc),
            0 <= k <= nparts,
            spc == samples_per_chunk as int,
            forall|i: int|
                0 <= i < parts@.len() ==> parts@[i] == spec_chunk_partial(
                    b,
                    spc,
                    i,
                    lo as int,
                    hi as int,
                ),
            v1 == chunks_v1_total(b, spc, k as int, lo as int, hi as int) % 0x1_0000_0000,
            v2 == chunks_v2_total(b, spc, k as int, lo as int, hi as int) % 0x1_0000_0000,
        decreases nparts - k,
    {
        let (p1, p2) = parts[k];
        proof {
            lemma_add_mod_noop(
                chunks_v1_total(b, spc, k as int, lo as int, hi as int),
                v1_sum(
                    chunk_bytes(b, spc, k as int),
                    (k as int) * spc,
                    chunk_size(b.len() as int / 4, spc, k as int),
                    lo as int,
                    hi as int,
                ),
                0x1_0000_0000,
            );
        }
        v1 = wrap_add32(v1, p1);
        proof {
            lemma_add_mod_noop(
                chunks_v2_total(b, spc, k as int, lo as int, hi as int),
                v2_sum(
                    chunk_bytes(b, spc, k as int),
                    (k as int) * spc,
                    chunk_size(b.len() as int / 4, spc, k as int),
                    lo as int,
                    hi as int,
                ),
                0x1_0000_0000,
            );
        }
        v2 = wrap_add32(v2, p2);
        k = k + 1;
    }

    proof {
        lemma_chunk_partition(b, spc, lo as int, hi as int);
    }

    Ok(CRCs { v1, v2 })
}

/// Default number of samples each parallel worker takes at a time.
pub const DEFAULT_SAMPLES_PER_CHUNK: usize = 0x1_0000;

/// Computes both checksum variants of one track, in parallel over
/// fixed-size chunks. Agrees exactly with [`calc_ar_crcs_seq`]. Fails
/// with [`ArError::MalformedAudio`] if and only if the byte count is
/// not a multiple of the 4-byte sample size.
pub fn calc_ar_crcs(track_audio_bytes: &[u8], is_first: bool, is_last: bool) -> (r: Result<
    CRCs,
    ArError,
>)
    requires
        track_audio_bytes@.len() < 0x4_0000_0000,
    ensures
        track_audio_bytes@.len() % 4 != 0 ==> r == Err::<CRCs, ArError>(ArError::MalformedAudio),
        track_audio_bytes@.len() % 4 == 0 ==> r == Ok::<CRCs, ArError>(
            spec_crcs(track_audio_bytes@, is_first, is_last),
        ),
{
    calc_ar_crcs_chunked(track_audio_bytes, is_first, is_last, DEFAULT_SAMPLES_PER_CHUNK)
}

/// Computes both checksum variants of one track in a single sequential
/// scan. Fails with [`ArError::MalformedAudio`] if and only if the byte
/// count is not a multiple of the 4-byte sample size.
pub fn calc_ar_crcs_seq(track_audio_bytes: &[u8], is_first: bool, is_last: bool) -> (r: Result<
    CRCs,
    ArError,
>)
    requires
        track_audio_bytes@.len() < 0x4_0000_0000,
    ensures
        track_audio_bytes@.len() % 4 != 0 ==> r == Err::<CRCs, ArError>(ArError::MalformedAudio),
        track_audio_bytes@.len() % 4 == 0 ==> r == Ok::<CRCs, ArError>(
            spec_crcs(track_audio_bytes@, is_first, is_last),
        ),
{
    if track_audio_bytes.len() % 4 != 0 {
        return Err(ArError::MalformedAudio);
    }
    let n = track_audio_bytes.len() / 4;
    let lo: usize = if is_first {
        SKIP_SAMPLES + 1
    } else {
        1
    };
    let hi: usize = if is_last {
        if n >= SKIP_SAMPLES {
            n - SKIP_SAMPLES
        } else {
            0
        }
    } else {
        n
    };
    let (v1, v2) = crc_partial(track_audio_bytes, 0, lo, hi);
    Ok(CRCs { v1, v2 })
}

} // verus!
