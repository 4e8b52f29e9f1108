use firefly_mesh::config::{Config, ConfigError};
use firefly_mesh::fitness::Weights;

#[test]
fn the_reference_configuration() {
    let config = Config::default();
    assert_eq!(config.router_count, 16);
    assert_eq!(config.client_count, 32);
    assert_eq!(config.dimensions, 2);
    assert_eq!(config.iterations, 100);
    assert_eq!(config.alpha, 500_000);
    assert_eq!(config.beta0, 1_000_000);
    assert_eq!(config.gamma, 1_000_000);
    assert_eq!(config.lower_bound, 0);
    assert_eq!(config.upper_bound, 32_000_000);
    assert_eq!(config.max_comm_distance, 4_500_000);
    assert_eq!(config.weights(), Weights { sgc: 800_000, ncmc: 100_000, ncmcpr: 100_000 });
    assert_eq!(config.check(), Ok(()));
    assert_eq!(config.sizes(), Ok((96, 480)));
}

#[test]
fn a_configuration_without_routers_is_refused() {
    let config = Config { router_count: 0, ..Config::default() };
    assert_eq!(config.check(), Err(ConfigError::NoRouters));
    assert_eq!(config.sizes(), Err(ConfigError::NoRouters));
}

#[test]
fn inverted_or_empty_bounds_are_refused() {
    let inverted = Config { lower_bound: 5, upper_bound: 4, ..Config::default() };
    assert_eq!(inverted.check(), Err(ConfigError::InvalidBounds));
    let empty = Config { lower_bound: 5, upper_bound: 5, ..Config::default() };
    assert_eq!(empty.check(), Err(ConfigError::InvalidBounds));
    let narrow = Config { lower_bound: 5, upper_bound: 6, ..Config::default() };
    assert_eq!(narrow.check(), Ok(()));
}

#[test]
fn a_population_too_large_for_memory_is_refused() {
    let routers = Config { router_count: usize::MAX, ..Config::default() };
    assert_eq!(routers.check(), Err(ConfigError::TooLarge));
    let clients = Config { client_count: usize::MAX, ..Config::default() };
    assert_eq!(clients.check(), Err(ConfigError::TooLarge));
    let dimensions = Config { dimensions: usize::MAX / 2, ..Config::default() };
    assert_eq!(dimensions.check(), Err(ConfigError::TooLarge));
}

#[test]
fn the_first_fault_is_reported() {
    let config = Config {
        router_count: 0,
        lower_bound: 1,
        upper_bound: 0,
        client_count: usize::MAX,
        ..Config::default()
    };
    assert_eq!(config.check(), Err(ConfigError::NoRouters));
    let config = Config { router_count: usize::MAX, lower_bound: 1, upper_bound: 0, ..config };
    assert_eq!(config.check(), Err(ConfigError::InvalidBounds));
}

#[test]
fn sizes_count_the_draws() {
    let config = Config { router_count: 3, client_count: 5, dimensions: 4, ..Config::default() };
    assert_eq!(config.placement_size(), Some(32));
    assert_eq!(config.round_size(), Some(24));
    let flat = Config { dimensions: 0, client_count: usize::MAX, ..config };
    assert_eq!(flat.placement_size(), Some(0));
    assert_eq!(flat.round_size(), Some(0));
    assert_eq!(flat.check(), Ok(()));
    let single = Config { router_count: 1, ..config };
    assert_eq!(single.round_size(), Some(0));
    let none = Config { router_count: 0, ..config };
    assert_eq!(none.round_size(), Some(0));
}

#[test]
fn any_number_of_clients_and_iterations_is_accepted() {
    let config = Config { client_count: 0, iterations: 0, ..Config::default() };
    assert_eq!(config.check(), Ok(()));
    assert_eq!(config.sizes(), Ok((32, 480)));
}
