use firefly_mesh::config::Config;
use firefly_mesh::firefly::{attraction, move_toward, sweep_routers};

fn line_config() -> Config {
    Config { router_count: 2, client_count: 0, dimensions: 1, ..Config::default() }
}

fn exponential(u: u128) -> u32 {
    ((-(u as f64) / 1e6).exp() * 1e6).round() as u32
}

#[test]
fn attractiveness_at_distance_zero_is_beta0() {
    let config = Config::default();
    assert_eq!(attraction(&config, &exponential, 0), 1_000_000);
    let stronger = Config { beta0: 2_500_000, ..config };
    assert_eq!(attraction(&stronger, &exponential, 0), 2_500_000);
}

#[test]
fn attractiveness_decays_with_the_squared_distance() {
    let config = Config::default();
    assert_eq!(attraction(&config, &exponential, 1_000_000_000_000), 367_879);
    assert_eq!(attraction(&config, &exponential, 4_000_000_000_000), 18_316);
    assert_eq!(attraction(&config, &exponential, 20_250_000_000_000), 0);
    let halved = Config { beta0: 500_000, ..config };
    assert_eq!(attraction(&halved, &exponential, 1_000_000_000_000), 183_939);
}

#[test]
fn the_kernel_receives_gamma_times_the_squared_distance() {
    let echo = |u: u128| u as u32;
    let config = Config::default();
    assert_eq!(attraction(&config, &echo, 250_000_000_000), 250_000);
    let doubled = Config { gamma: 2_000_000, ..config };
    assert_eq!(attraction(&doubled, &echo, 250_000_000_000), 500_000);
    let none = Config { gamma: 0, ..config };
    assert_eq!(attraction(&none, &echo, 250_000_000_000), 0);
    assert_eq!(attraction(&config, &echo, 999_999), 0);
    assert_eq!(attraction(&config, &echo, 1_000_000), 1);
}

#[test]
fn a_decay_above_one_counts_as_one() {
    let loud = |_u: u128| 5_000_000u32;
    let config = Config { beta0: 700_000, ..Config::default() };
    assert_eq!(attraction(&config, &loud, 123_456_789), 700_000);
}

#[test]
fn the_argument_of_the_kernel_stops_at_the_largest_product() {
    let at_most = |u: u128| if u == 340_282_366_920_938_463_463_374_607 { 1_000_000u32 } else { 0 };
    let config = Config { gamma: u32::MAX, ..Config::default() };
    assert_eq!(attraction(&config, &at_most, u128::MAX), 1_000_000);
    assert_eq!(attraction(&config, &at_most, u128::MAX / 2), 1_000_000);
    assert_eq!(attraction(&config, &at_most, 1_000_000), 0);
}

#[test]
fn a_point_moves_by_attraction_and_noise() {
    let half = |_u: u128| 500_000u32;
    let config = line_config();
    let next = move_toward(&config, &half, &vec![0], &vec![10_000_000], &vec![750_000], 0);
    assert_eq!(next, vec![5_125_000]);
    let back = move_toward(&config, &half, &vec![10_000_000], &vec![0], &vec![250_000], 0);
    assert_eq!(back, vec![4_875_000]);
}

#[test]
fn a_move_rounds_toward_zero() {
    let half = |_u: u128| 500_000u32;
    let config = line_config();
    assert_eq!(move_toward(&config, &half, &vec![3], &vec![0], &vec![500_000], 0), vec![2]);
    assert_eq!(move_toward(&config, &half, &vec![0], &vec![3], &vec![500_000], 0), vec![1]);
    assert_eq!(move_toward(&config, &half, &vec![10], &vec![10], &vec![500_001], 0), vec![10]);
    assert_eq!(move_toward(&config, &half, &vec![10], &vec![10], &vec![499_999], 0), vec![10]);
    assert_eq!(move_toward(&config, &half, &vec![10], &vec![10], &vec![500_002], 0), vec![11]);
    assert_eq!(move_toward(&config, &half, &vec![10], &vec![10], &vec![499_998], 0), vec![9]);
}

#[test]
fn a_move_is_clamped_into_the_bounds() {
    let one = |_u: u128| 1_000_000u32;
    let config = line_config();
    let high = move_toward(&config, &one, &vec![31_000_000], &vec![32_000_000], &vec![999_999], 0);
    assert_eq!(high, vec![32_000_000]);
    let low = move_toward(&config, &one, &vec![100_000], &vec![0], &vec![0], 0);
    assert_eq!(low, vec![0]);
    let wide = Config { alpha: u32::MAX, ..config };
    assert_eq!(move_toward(&wide, &one, &vec![5], &vec![5], &vec![999_999], 0), vec![32_000_000]);
    assert_eq!(move_toward(&wide, &one, &vec![5], &vec![5], &vec![0], 0), vec![0]);
}

#[test]
fn a_move_reads_its_noise_from_the_offset() {
    let none = |_u: u128| 0u32;
    let config = Config { dimensions: 2, alpha: 1_000_000, ..line_config() };
    let noise = vec![0, 0, 0, 600_000, 300_000, 0];
    let next = move_toward(&config, &none, &vec![1_000_000, 1_000_000], &vec![9, 9], &noise, 3);
    assert_eq!(next, vec![1_100_000, 800_000]);
}

#[test]
fn every_coordinate_uses_the_attractiveness_of_the_whole_distance() {
    let config = Config { dimensions: 2, alpha: 0, ..line_config() };
    let point = vec![0, 0];
    let target = vec![600_000, 800_000];
    let next = move_toward(&config, &exponential, &point, &target, &vec![0, 0], 0);
    assert_eq!(next, vec![220_727, 294_303]);
}

#[test]
fn a_sweep_reads_the_other_routers_from_the_snapshot() {
    let one = |_u: u128| 1_000_000u32;
    let config = Config { alpha: 0, ..line_config() };
    let snapshot = vec![vec![0], vec![10_000_000]];
    let next = sweep_routers(&config, &one, &snapshot, &vec![0, 0]);
    assert_eq!(next, vec![vec![10_000_000], vec![0]]);
    assert_eq!(snapshot, vec![vec![0], vec![10_000_000]]);
}

#[test]
fn a_sweep_gives_each_pair_its_own_noise() {
    let none = |_u: u128| 0u32;
    let config = Config { alpha: 1_000_000, ..line_config() };
    let snapshot = vec![vec![5_000_000], vec![5_000_000]];
    let next = sweep_routers(&config, &none, &snapshot, &vec![750_000, 250_000]);
    assert_eq!(next, vec![vec![5_250_000], vec![4_750_000]]);
}

#[test]
fn a_sweep_draws_each_router_toward_every_other_in_turn() {
    let half = |_u: u128| 500_000u32;
    let config = Config { router_count: 3, alpha: 0, ..line_config() };
    let snapshot = vec![vec![0], vec![8_000_000], vec![16_000_000]];
    let next = sweep_routers(&config, &half, &snapshot, &vec![500_000; 6]);
    assert_eq!(next, vec![vec![10_000_000], vec![10_000_000], vec![8_000_000]]);
}

#[test]
fn a_sweep_takes_the_pairs_in_the_order_of_their_routers() {
    let none = |_u: u128| 0u32;
    let config = Config { router_count: 3, alpha: 1_000_000, ..line_config() };
    let snapshot = vec![vec![5_000_000], vec![6_000_000], vec![7_000_000]];
    let noise = vec![500_001, 500_010, 500_100, 501_000, 510_000, 600_000];
    let next = sweep_routers(&config, &none, &snapshot, &noise);
    assert_eq!(next, vec![vec![5_000_011], vec![6_001_100], vec![7_110_000]]);
}

#[test]
fn a_single_router_stays_where_it_is() {
    let one = |_u: u128| 1_000_000u32;
    let config = Config { router_count: 1, ..line_config() };
    let next = sweep_routers(&config, &one, &vec![vec![7_000_000]], &Vec::new());
    assert_eq!(next, vec![vec![7_000_000]]);
}

#[test]
fn a_sweep_keeps_every_coordinate_within_the_bounds() {
    let config = Config { router_count: 4, dimensions: 2, alpha: u32::MAX, ..Config::default() };
    let snapshot = vec![vec![0, 0], vec![32_000_000, 0], vec![0, 32_000_000], vec![16_000_000, 1]];
    let noise: Vec<i32> = (0..24).map(|k| (k * 41_667) % 1_000_000).collect();
    let next = sweep_routers(&config, &exponential, &snapshot, &noise);
    assert_eq!(next.len(), 4);
    for point in &next {
        assert_eq!(point.len(), 2);
        for coordinate in point {
            assert!(0 <= *coordinate && *coordinate <= 32_000_000);
        }
    }
}
