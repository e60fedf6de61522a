//! Disc identification: turns per-track frame lengths into cumulative
//! frame offsets and the three 32-bit disc identifiers AccurateRip keys
//! its database by.

use vstd::arithmetic::div_mod::{lemma_add_mod_noop, lemma_mod_mod, lemma_small_mod};
use vstd::prelude::*;

use crate::util::{lemma_sum_digits_u64_bound, spec_sum_digits, sum_digits};
use crate::ArError;

verus! {

/// Number of CD frames a track occupies (one frame is 588 samples).
pub type FrameLength = u64;

/// Cumulative number of CD frames up to and including a track.
pub type FrameOffset = u64;

pub const SAMPLES_PER_FRAME: u64 = 588;

pub const FRAMES_PER_SECOND: u64 = 75;

/// The identity of one disc pressing: two AccurateRip disc ids, a
/// CDDB-style id, and the track count the offsets were drawn from.
#[derive(Clone, Copy, Debug, PartialEq, Eq, Structural)]
pub struct DiscInfo {
    pub id_1: u32,
    pub id_2: u32,
    pub cddb_id: u32,
    pub num_tracks: u8,
}

/// Sum of the first `n` elements of `s`.
pub open spec fn sum_prefix(s: Seq<u64>, n: int) -> int
    decreases n,
{
    if n <= 0 {
        0
    } else {
        sum_prefix(s, n - 1) + s[n - 1]
    }
}

/// Prefix sums of non-negative values never decrease.
pub proof fn lemma_sum_prefix_mono(s: Seq<u64>, i: int, j: int)
    requires
        0 <= i <= j <= s.len(),
    ensures
        0 <= sum_prefix(s, i) <= sum_prefix(s, j),
    decreases j,
{
    if j > 0 {
        if i == j {
            lemma_sum_prefix_mono(s, i - 1, j - 1);
        } else {
            lemma_sum_prefix_mono(s, i, j - 1);
        }
    }
}

/// The running prefix sums of a sequence of frame lengths.
pub open spec fn spec_frame_offsets(s: Seq<u64>) -> Seq<u64>
    recommends
        sum_prefix(s, s.len() as int) <= u64::MAX,
{
    Seq::new(s.len(), |i: int| sum_prefix(s, i + 1) as u64)
}

/// Returns the cumulative frame offsets of the given track lengths:
/// `r[i]` is the sum of `frame_lengths[0..=i]`. An empty input yields an
/// empty output. The offsets are monotonically non-decreasing and the
/// last one equals the sum of all lengths.
pub fn calc_frame_offsets(frame_lengths: Vec<FrameLength>) -> (r: Vec<FrameOffset>)
    requires
        sum_prefix(frame_lengths@, frame_lengths@.len() as int) <= u64::MAX,
    ensures
        r@ == spec_frame_offsets(frame_lengths@),
        r@.len() == frame_lengths@.len(),
        forall|i: int, j: int| 0 <= i <= j < r@.len() ==> r@[i] <= r@[j],
        r@.len() > 0 ==> r@[r@.len() - 1]
            == sum_prefix(frame_lengths@, frame_lengths@.len() as int),
{
    let ghost s = frame_lengths@;
    let n = frame_lengths.len();
    let mut offsets: Vec<u64> = Vec::new();
    let mut acc: u64 = 0;
    let mut i: usize = 0;

    while i < n
        invariant
            n == s.len(),
            frame_lengths@ == s,
            sum_prefix(s, n as int) <= u64::MAX,
            0 <= i <= n,
            acc == sum_prefix(s, i as int),
            offsets@.len() == i,
            forall|k: int| 0 <= k < i ==> offsets@[k] == sum_prefix(s, k + 1),
        decreases n - i,
    {
        proof {
            lemma_sum_prefix_mono(s, i + 1, n as int);
        }
        acc = acc + frame_lengths[i];
        offsets.push(acc);
        i = i + 1;
    }

    proof {
        assert(offsets@ =~= spec_frame_offsets(s));
        assert forall|a: int, b: int| 0 <= a <= b < offsets@.len() implies offsets@[a]
            <= offsets@[b] by {
            lemma_sum_prefix_mono(s, a + 1, b + 1);
        }
    }

    offsets
}

/// A frame offset, lifted to at least one frame: the id computation
/// never weighs an offset of zero as zero.
pub open spec fn spec_max1(x: u64) -> int {
    if x < 1 {
        1
    } else {
        x as int
    }
}

/// The second disc id before masking: each offset, weighted by its
/// 1-based track number plus one.
pub open spec fn weighted_prefix(s: Seq<u64>, n: int) -> int
    decreases n,
{
    if n <= 0 {
        0
    } else {
        weighted_prefix(s, n - 1) + spec_max1(s[n - 1]) * (n + 1)
    }
}

/// The CDDB accumulator over the first `n` offsets: digit sums of each
/// offset's playing-time seconds, plus two.
pub open spec fn digits_prefix(s: Seq<u64>, n: int) -> int
    decreases n,
{
    if n <= 0 {
        0
    } else {
        digits_prefix(s, n - 1) + spec_sum_digits(s[n - 1] / 75 + 2)
    }
}

pub open spec fn spec_id_1(s: Seq<u64>) -> u32 {
    (sum_prefix(s, s.len() as int) % 0x1_0000_0000) as u32
}

pub open spec fn spec_id_2(s: Seq<u64>) -> u32 {
    ((1 + weighted_prefix(s, s.len() as int)) % 0x1_0000_0000) as u32
}

/// The CDDB-style id: the digit-sum accumulator modulo 255 in the top
/// byte, the last offset's playing time in seconds shifted up a byte,
/// and the track count in the low byte, all truncated to 32 bits.
pub open spec fn spec_cddb_id(s: Seq<u64>) -> u32
    recommends
        0 < s.len() <= 255,
{
    let partial = 2 + digits_prefix(s, s.len() - 1);
    let seconds = s[s.len() - 1] / 75;
    let high = ((partial % 255) * 0x100_0000) as u64;
    let mid = ((seconds * 0x100) % 0x1_0000_0000_0000_0000) as u64;
    let low = s.len() as u64;
    (((high | mid | low) as int) % 0x1_0000_0000) as u32
}

/// The full disc identity of a non-empty offset sequence.
pub open spec fn spec_disc_info(s: Seq<u64>) -> DiscInfo
    recommends
        0 < s.len() <= 255,
{
    DiscInfo {
        id_1: spec_id_1(s),
        id_2: spec_id_2(s),
        cddb_id: spec_cddb_id(s),
        num_tracks: s.len() as u8,
    }
}

/// Computes the disc identity from cumulative frame offsets, walking
/// them in track order. All three ids accumulate in 64 bits and are
/// masked to their low 32 bits at the end. An empty input has no
/// meaningful identity and is rejected.
pub fn calc_disc_info(frame_offsets: Vec<FrameOffset>) -> (r: Result<DiscInfo, ArError>)
    requires
        frame_offsets@.len() <= 255,
    ensures
        frame_offsets@.len() == 0 ==> r == Err::<DiscInfo, ArError>(ArError::InvalidInput),
        frame_offsets@.len() > 0 ==> r == Ok::<DiscInfo, ArError>(spec_disc_info(frame_offsets@)),
{
    let ghost s = frame_offsets@;
    let n = frame_offsets.len();
    if n == 0 {
        return Err(ArError::InvalidInput);
    }

    let mut id_1: u64 = 0;
    let mut id_2: u64 = 1;
    let mut cddb: u64 = 2;
    let mut i: usize = 0;

    while i < n
        invariant
            n == s.len(),
            frame_offsets@ == s,
            0 < n <= 255,
            0 <= i <= n,
            id_1 == sum_prefix(s, i as int) % 0x1_0000_0000_0000_0000,
            id_2 == (1 + weighted_prefix(s, i as int)) % 0x1_0000_0000_0000_0000,
            cddb == 2 + digits_prefix(s, if i < n { i as int } else { n - 1 }),
            cddb <= 2 + 180 * i,
        decreases n - i,
    {
        let off = frame_offsets[i];

        proof {
            lemma_add_mod_noop(
                sum_prefix(s, i as int),
                off as int,
                0x1_0000_0000_0000_0000,
            );
            lemma_small_mod(off as nat, 0x1_0000_0000_0000_0000);
        }
        id_1 = id_1.wrapping_add(off);

        let weight: u64 = i as u64 + 2;
        let base: u64 = if off < 1 {
            1
        } else {
            off
        };
        let term = base.wrapping_mul(weight);
        proof {
            lemma_add_mod_noop(
                1 + weighted_prefix(s, i as int),
                spec_max1(s[i as int]) * (i + 2),
                0x1_0000_0000_0000_0000,
            );
        }
        id_2 = id_2.wrapping_add(term);

        if i + 1 < n {
            let arg: u64 = off / FRAMES_PER_SECOND + 2;
            proof {
                lemma_sum_digits_u64_bound(arg);
                crate::util::lemma_sum_digits_le(arg as int);
            }
            cddb = cddb + sum_digits(arg);
        }

        i = i + 1;
    }

    let last = frame_offsets[n - 1];
    let high: u64 = (cddb % 255) * 0x100_0000;
    let mid: u64 = (last / FRAMES_PER_SECOND).wrapping_mul(0x100);
    let low: u64 = n as u64;
    let combined: u64 = high | mid | low;

    let out = DiscInfo {
        id_1: (id_1 % 0x1_0000_0000) as u32,
        id_2: (id_2 % 0x1_0000_0000) as u32,
        cddb_id: (combined % 0x1_0000_0000) as u32,
        num_tracks: n as u8,
    };

    proof {
        lemma_mod_mod(sum_prefix(s, n as int), 0x1_0000_0000, 0x1_0000_0000);
        lemma_mod_mod(1 + weighted_prefix(s, n as int), 0x1_0000_0000, 0x1_0000_0000);
        assert(out == spec_disc_info(s));
    }

    Ok(out)
}

/// The number of whole frames needed to hold `total_samples` samples:
/// the sample count divided by 588, rounded up.
pub fn calc_frame_length(total_samples: u64) -> (r: FrameLength)
    ensures
        r == (total_samples + 587) / 588,
{
    let base = total_samples / SAMPLES_PER_FRAME;
    let r = if total_samples % SAMPLES_PER_FRAME == 0 {
        base
    } else {
        base + 1
    };
    r
}

/// Computes the disc identity for a set of track files, given the frame
/// length of each file in track order: the offsets are accumulated and
/// the identity taken from them. An empty set is rejected.
pub fn calc_disc_info_for_files(frame_lengths: Vec<FrameLength>) -> (r: Result<DiscInfo, ArError>)
    requires
        frame_lengths@.len() <= 255,
        sum_prefix(frame_lengths@, frame_lengths@.len() as int) <= u64::MAX,
    ensures
        frame_lengths@.len() == 0 ==> r == Err::<DiscInfo, ArError>(ArError::InvalidInput),
        frame_lengths@.len() > 0 ==> r == Ok::<DiscInfo, ArError>(
            spec_disc_info(spec_frame_offsets(frame_lengths@)),
        ),
{
    let frame_offsets = calc_frame_offsets(frame_lengths);
    calc_disc_info(frame_offsets)
}

} // verus!
