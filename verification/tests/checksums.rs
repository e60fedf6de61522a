use ar_flac::crc::{calc_ar_crcs, calc_ar_crcs_chunked, calc_ar_crcs_seq, CRCs};
use ar_flac::ArError;

fn sample_bytes(samples: &[u32]) -> Vec<u8> {
    let mut bytes = Vec::new();
    for s in samples {
        bytes.push((s & 0xFF) as u8);
        bytes.push(((s >> 8) & 0xFF) as u8);
        bytes.push(((s >> 16) & 0xFF) as u8);
        bytes.push(((s >> 24) & 0xFF) as u8);
    }
    bytes
}

#[test]
fn two_small_samples_weighted_by_position() {
    // Samples 1 and 2 at positions 1 and 2: both sums are 1*1 + 2*2.
    let bytes = sample_bytes(&[1, 2]);
    let produced = calc_ar_crcs_seq(&bytes, false, false).unwrap();
    assert_eq!(produced, CRCs { v1: 5, v2: 5 });
}

#[test]
fn v2_folds_in_the_high_product_half() {
    // Position 2 times 0xFFFFFFFF overflows 32 bits: v1 keeps only the
    // low half, v2 adds the high half too, and both accumulators wrap.
    let bytes = sample_bytes(&[3, 0xFFFF_FFFF]);
    let produced = calc_ar_crcs_seq(&bytes, false, false).unwrap();
    assert_eq!(produced, CRCs { v1: 1, v2: 2 });
}

#[test]
fn first_track_skips_five_frames_of_samples() {
    // 2941 samples: position 2940 is still excluded on a first track,
    // position 2941 is the first included one.
    let mut samples = vec![0u32; 2941];
    samples[2939] = 5;
    samples[2940] = 1;
    let bytes = sample_bytes(&samples);
    let produced = calc_ar_crcs_seq(&bytes, true, false).unwrap();
    assert_eq!(produced, CRCs { v1: 2941, v2: 2941 });
}

#[test]
fn last_track_skips_five_trailing_frames_of_samples() {
    // 3000 samples on a last track: position 60 is the last included
    // one, position 61 already falls into the tail exclusion.
    let mut samples = vec![0u32; 3000];
    samples[59] = 1;
    samples[60] = 9;
    let bytes = sample_bytes(&samples);
    let produced = calc_ar_crcs_seq(&bytes, false, true).unwrap();
    assert_eq!(produced, CRCs { v1: 60, v2: 60 });
}

#[test]
fn short_first_and_last_track_has_empty_window() {
    let bytes = sample_bytes(&[7, 7, 7]);
    let produced = calc_ar_crcs_seq(&bytes, true, true).unwrap();
    assert_eq!(produced, CRCs { v1: 0, v2: 0 });
}

#[test]
fn empty_track_yields_zero_checksums() {
    let produced = calc_ar_crcs_seq(&[], false, false).unwrap();
    assert_eq!(produced, CRCs { v1: 0, v2: 0 });
    let produced = calc_ar_crcs(&[], true, true).unwrap();
    assert_eq!(produced, CRCs { v1: 0, v2: 0 });
}

#[test]
fn trailing_partial_sample_is_malformed() {
    let bytes = vec![1, 2, 3, 4, 5];
    assert_eq!(calc_ar_crcs_seq(&bytes, false, false), Err(ArError::MalformedAudio));
    assert_eq!(calc_ar_crcs(&bytes, false, false), Err(ArError::MalformedAudio));
    assert_eq!(calc_ar_crcs_chunked(&bytes, false, false, 16), Err(ArError::MalformedAudio));
}

#[test]
fn parallel_and_sequential_checksums_agree() {
    // Pseudo-random buffers of varying lengths, all first/last flag
    // combinations, many chunk sizes: every code path must agree
    // bit-for-bit with the sequential scan.
    let mut state: u64 = 0x1234_5678_9ABC_DEF0;
    let mut next_byte = move || {
        state = state.wrapping_mul(6364136223846793005).wrapping_add(1442695040888963407);
        (state >> 56) as u8
    };

    let sample_counts = [0usize, 1, 2, 3, 16, 100, 2939, 2941, 3001];
    let chunk_sizes = [1usize, 2, 3, 7, 16, 255, 1024, 100_000];

    for &n in &sample_counts {
        let bytes: Vec<u8> = (0..4 * n).map(|_| next_byte()).collect();
        for &(is_first, is_last) in
            &[(false, false), (true, false), (false, true), (true, true)]
        {
            let sequential = calc_ar_crcs_seq(&bytes, is_first, is_last).unwrap();
            let parallel = calc_ar_crcs(&bytes, is_first, is_last).unwrap();
            assert_eq!(sequential, parallel);
            for &spc in &chunk_sizes {
                let chunked = calc_ar_crcs_chunked(&bytes, is_first, is_last, spc).unwrap();
                assert_eq!(sequential, chunked);
            }
        }
    }
}
