use ar_flac::offset::{calc_disc_info, calc_disc_info_for_files, calc_frame_length,
    calc_frame_offsets, DiscInfo};
use ar_flac::util::sum_digits;
use ar_flac::ArError;

fn expected_lengths() -> Vec<u64> {
    vec![24882, 21328, 25617, 19155, 16888, 25512, 23685, 20160, 23518, 16502]
}

fn expected_offsets() -> Vec<u64> {
    vec![24882, 46210, 71827, 90982, 107870, 133382, 157067, 177227, 200745, 217247]
}

#[test]
fn test_calc_frame_offsets() {
    let lengths = expected_lengths();

    let inputs_and_expected: Vec<(Vec<u64>, Vec<u64>)> = vec![
        (
            lengths[..=1].to_vec(),
            vec![
                lengths[..=0].iter().sum(),
                lengths[..=1].iter().sum(),
            ],
        ),
        (
            lengths[..=9].to_vec(),
            vec![
                lengths[..=0].iter().sum(),
                lengths[..=1].iter().sum(),
                lengths[..=2].iter().sum(),
                lengths[..=3].iter().sum(),
                lengths[..=4].iter().sum(),
                lengths[..=5].iter().sum(),
                lengths[..=6].iter().sum(),
                lengths[..=7].iter().sum(),
                lengths[..=8].iter().sum(),
                lengths[..=9].iter().sum(),
            ],
        ),
    ];

    for (input, expected) in inputs_and_expected {
        let produced = calc_frame_offsets(input);
        assert_eq!(expected, produced);
    }
}

#[test]
fn test_calc_disc_info() {
    let inputs_and_expected = vec![
        (
            expected_offsets(),
            DiscInfo { id_1: 1227439, id_2: 9760253, cddb_id: 2332774410, num_tracks: 10 },
        ),
    ];

    for (input, expected) in inputs_and_expected {
        let produced = calc_disc_info(input).unwrap();
        assert_eq!(expected, produced);
    }
}

#[test]
fn test_sum_digits() {
    let inputs_and_expected: Vec<(u64, u64)> = vec![
        (0, 0),
        (1, 1),
        (10, 1),
        (15, 6),
        (247, 13),
        (1000, 1),
        (123456, 21),
    ];

    for (input, expected) in inputs_and_expected {
        let produced = sum_digits(input);
        assert_eq!(expected, produced);
    }
}

#[test]
fn calc_frame_offsets_empty_input_yields_empty_output() {
    let produced = calc_frame_offsets(vec![]);
    assert_eq!(produced, Vec::<u64>::new());
}

#[test]
fn calc_frame_offsets_is_monotone_with_zero_lengths() {
    let produced = calc_frame_offsets(vec![0, 5, 0, 3]);
    assert_eq!(produced, vec![0, 5, 5, 8]);
    for w in produced.windows(2) {
        assert!(w[0] <= w[1]);
    }
    assert_eq!(*produced.last().unwrap(), 8);
}

#[test]
fn calc_disc_info_rejects_empty_track_list() {
    assert_eq!(calc_disc_info(vec![]), Err(ArError::InvalidInput));
}

#[test]
fn calc_disc_info_single_track() {
    // One track of 16502 frames: id_1 is the offset, id_2 weighs it by
    // two, and the CDDB id packs 2 % 255, 16502 / 75 and one track.
    let info = calc_disc_info(vec![16502]).unwrap();
    assert_eq!(info.id_1, 16502);
    assert_eq!(info.id_2, 1 + 2 * 16502);
    assert_eq!(info.cddb_id, (2u32 << 24) | ((16502 / 75) << 8) | 1);
    assert_eq!(info.num_tracks, 1);
}

#[test]
fn calc_disc_info_for_files_matches_direct_computation() {
    let produced = calc_disc_info_for_files(expected_lengths()).unwrap();
    let expected = DiscInfo { id_1: 1227439, id_2: 9760253, cddb_id: 2332774410, num_tracks: 10 };
    assert_eq!(expected, produced);
}

#[test]
fn calc_disc_info_for_files_rejects_empty_input() {
    assert_eq!(calc_disc_info_for_files(vec![]), Err(ArError::InvalidInput));
}

#[test]
fn calc_frame_length_rounds_sample_counts_up() {
    assert_eq!(calc_frame_length(0), 0);
    assert_eq!(calc_frame_length(1), 1);
    assert_eq!(calc_frame_length(588), 1);
    assert_eq!(calc_frame_length(589), 2);
    assert_eq!(calc_frame_length(588 * 24882), 24882);
    assert_eq!(calc_frame_length(588 * 24881 + 1), 24882);
}
