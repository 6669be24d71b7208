use audio_visualiser::structs::{FrequencyBand, FrequencyInterval, VisualiserSettings, VisualiserType};
use audio_visualiser::util::makeDistribution;

const MODES: [VisualiserType; 3] = [VisualiserType::Linear1, VisualiserType::Linear2, VisualiserType::Log];

fn band(freq: u32, log_position: u32, volume: u32) -> FrequencyBand {
    FrequencyBand { freq, log_position, volume }
}

fn volumes(out: &[FrequencyInterval]) -> Vec<u32> {
    out.iter().map(|i| i.volume).collect()
}

fn sample_bands() -> Vec<FrequencyBand> {
    vec![
        band(50_000, 60_000, 10),
        band(400_000, 430_000, 20),
        band(3_000_000, 730_000, 30),
        band(12_000_000, 930_000, 40),
        band(19_500_000, 996_000, 50),
    ]
}

#[test]
fn zero_resolution_is_empty_for_every_mode() {
    for mode in MODES {
        assert!(makeDistribution(&sample_bands(), 0, mode).is_empty());
        assert!(makeDistribution(&[], 0, mode).is_empty());
    }
}

#[test]
fn every_mode_gives_resolution_dense_indices() {
    for mode in MODES {
        for r in [1usize, 2, 3, 7, 128] {
            let out = makeDistribution(&sample_bands(), r, mode);
            assert_eq!(out.len(), r);
            for (i, interval) in out.iter().enumerate() {
                assert_eq!(interval.index as usize, i);
            }
        }
    }
}

#[test]
fn largest_resolution_reaches_last_u16_index() {
    let out = makeDistribution(&sample_bands(), 65536, VisualiserType::Log);
    assert_eq!(out.len(), 65536);
    assert_eq!(out[65535].index, 65535);
}

#[test]
fn linear_by_frequency_example_two_slices() {
    let data = vec![band(100_000, 0, 1_000_000), band(19_000_000, 0, 500_000)];
    let out = makeDistribution(&data, 2, VisualiserType::Linear1);
    assert_eq!(
        out,
        vec![
            FrequencyInterval { index: 0, volume: 1_000_000 },
            FrequencyInterval { index: 1, volume: 500_000 },
        ]
    );
}

#[test]
fn linear_by_frequency_boundary_goes_to_upper_slice() {
    // 20 Hz + 9,990 Hz is where the second of two slices starts.
    let data = vec![band(10_009_999, 0, 7), band(10_010_000, 0, 9)];
    let out = makeDistribution(&data, 2, VisualiserType::Linear1);
    assert_eq!(volumes(&out), vec![7, 9]);
}

#[test]
fn linear_by_frequency_empty_slices_are_zero_and_means_round_down() {
    let data = vec![band(30_000, 0, 1), band(40_000, 0, 2), band(19_990_000, 0, 6)];
    let out = makeDistribution(&data, 4, VisualiserType::Linear1);
    assert_eq!(volumes(&out), vec![1, 0, 0, 6]);
}

#[test]
fn linear_by_frequency_out_of_range_falls_into_end_slices() {
    let data = vec![band(5_000, 0, 3), band(20_000, 0, 5), band(25_000_000, 0, 8), band(20_000_000, 0, 10)];
    let out = makeDistribution(&data, 3, VisualiserType::Linear1);
    assert_eq!(volumes(&out), vec![4, 0, 9]);
}

#[test]
fn linear_by_count_splits_by_position() {
    // five bands into three groups: [0,1), [1,3), [3,5)
    let out = makeDistribution(&sample_bands(), 3, VisualiserType::Linear2);
    assert_eq!(volumes(&out), vec![10, 25, 45]);
}

#[test]
fn linear_by_count_empty_groups_are_zero() {
    // two bands into four groups: bounds 0, 0, 1, 1, 2
    let data = vec![band(100_000, 0, 8), band(200_000, 0, 4)];
    let out = makeDistribution(&data, 4, VisualiserType::Linear2);
    assert_eq!(volumes(&out), vec![0, 8, 0, 4]);
}

#[test]
fn linear_by_count_group_sizes_add_up() {
    let data: Vec<FrequencyBand> = (0..10u32).map(|i| band(i * 1000, 0, 1)).collect();
    for r in 1..=13usize {
        let bounds: Vec<usize> = (0..=r).map(|i| i * data.len() / r).collect();
        assert!(bounds.windows(2).all(|w| w[0] <= w[1]));
        let total: usize = bounds.windows(2).map(|w| w[1] - w[0]).sum();
        assert_eq!(total, data.len());
        let out = makeDistribution(&data, r, VisualiserType::Linear2);
        for (i, interval) in out.iter().enumerate() {
            let expected = if bounds[i] < bounds[i + 1] { 1 } else { 0 };
            assert_eq!(interval.volume, expected);
        }
    }
}

#[test]
fn log_range_ends_map_to_first_and_last_slot() {
    for r in [1usize, 2, 10, 128, 1000] {
        let out = makeDistribution(&[band(20_000, 0, 11)], r, VisualiserType::Log);
        assert_eq!(out[0].volume, 11);
        let out = makeDistribution(&[band(20_000_000, 1_000_000, 13)], r, VisualiserType::Log);
        assert_eq!(out[r - 1].volume, 13);
    }
}

#[test]
fn linear_range_ends_map_to_first_and_last_slot() {
    for r in [1usize, 2, 10, 128, 1000] {
        let out = makeDistribution(&[band(20_000, 0, 11)], r, VisualiserType::Linear1);
        assert_eq!(out[0].volume, 11);
        let out = makeDistribution(&[band(20_000_000, 0, 13)], r, VisualiserType::Linear1);
        assert_eq!(out[r - 1].volume, 13);
    }
}

#[test]
fn log_slots_average_their_bands() {
    // positions 0.3 and 0.4 share slot 1 of 4; 0.999 is in slot 3
    let data = vec![band(0, 300_000, 10), band(0, 400_000, 30), band(0, 999_000, 5)];
    let out = makeDistribution(&data, 4, VisualiserType::Log);
    assert_eq!(volumes(&out), vec![0, 20, 0, 5]);
}

#[test]
fn log_epsilon_keeps_top_position_below_resolution() {
    // 0.5 * (2 - 0.001) = 0.9995 -> slot 0; 0.9995 * 1.999 = 1.998 -> slot 1
    let data = vec![band(0, 500_000, 4), band(0, 999_500, 6)];
    let out = makeDistribution(&data, 2, VisualiserType::Log);
    assert_eq!(volumes(&out), vec![4, 6]);
}

#[test]
fn empty_band_list_gives_zero_slots() {
    for mode in MODES {
        let out = makeDistribution(&[], 5, mode);
        assert_eq!(volumes(&out), vec![0; 5]);
    }
}

#[test]
fn large_volumes_do_not_overflow_the_mean() {
    let data = vec![band(100_000, 0, u32::MAX), band(110_000, 0, u32::MAX), band(120_000, 0, u32::MAX - 2)];
    for mode in MODES {
        let out = makeDistribution(&data, 1, mode);
        assert_eq!(out[0].volume, u32::MAX - 1);
    }
}

#[test]
fn visualiser_settings_default() {
    let s = VisualiserSettings::default();
    assert_eq!(s.barsColour, (0, 0, 0, 170));
    assert_eq!(s.visualiserType, VisualiserType::Linear1);
    assert!(s.useDesktopBackground);
    assert_eq!(s.resolution, 128);
}
