use firefly_mesh::fitness::{fitness_function, metrics, score, Metrics, Weights};

const U: i32 = 1_000_000;

fn reference_weights() -> Weights {
    Weights { sgc: 800_000, ncmc: 100_000, ncmcpr: 100_000 }
}

#[test]
fn the_score_is_the_weighted_sum() {
    let found = Metrics { sgc: 4, ncmc: 2, ncmcpr: 500_000 };
    assert_eq!(score(&reference_weights(), &found), 3_450_000_000_000);
    let none = Metrics { sgc: 0, ncmc: 0, ncmcpr: 0 };
    assert_eq!(score(&reference_weights(), &none), 0);
}

#[test]
fn each_weight_applies_to_its_own_metric() {
    let found = Metrics { sgc: 3, ncmc: 5, ncmcpr: 7 };
    assert_eq!(score(&Weights { sgc: 1, ncmc: 0, ncmcpr: 0 }, &found), 3_000_000);
    assert_eq!(score(&Weights { sgc: 0, ncmc: 1, ncmcpr: 0 }, &found), 5_000_000);
    assert_eq!(score(&Weights { sgc: 0, ncmc: 0, ncmcpr: 1 }, &found), 7);
}

#[test]
fn the_score_holds_the_largest_values() {
    let found = Metrics {
        sgc: usize::MAX,
        ncmc: usize::MAX,
        ncmcpr: (usize::MAX as u128) * 1_000_000,
    };
    let weights = Weights { sgc: u32::MAX, ncmc: u32::MAX, ncmcpr: u32::MAX };
    let term = (u32::MAX as u128) * (usize::MAX as u128) * 1_000_000;
    assert_eq!(score(&weights, &found), 3 * term);
}

#[test]
fn metrics_of_a_square_of_routers() {
    let routers = vec![vec![0, 0], vec![U, 0], vec![0, U], vec![U, U]];
    let clients = vec![vec![0, 0], vec![50 * U, 50 * U]];
    assert_eq!(
        metrics(&routers, &clients, 2_000_000),
        Some(Metrics { sgc: 4, ncmc: 1, ncmcpr: 250_000 })
    );
}

#[test]
fn fitness_of_a_square_of_routers() {
    let routers = vec![vec![0, 0], vec![U, 0], vec![0, U], vec![U, U]];
    let clients = vec![vec![0, 0], vec![50 * U, 50 * U]];
    assert_eq!(
        fitness_function(&routers, &clients, 2_000_000, &reference_weights()),
        Some(3_325_000_000_000)
    );
}

#[test]
fn fitness_without_clients_is_the_connectivity_term() {
    let routers = vec![vec![0, 0], vec![U, 0], vec![40 * U, 0]];
    let clients: Vec<Vec<i32>> = Vec::new();
    assert_eq!(
        fitness_function(&routers, &clients, 2_000_000, &reference_weights()),
        Some(1_600_000_000_000)
    );
}

#[test]
fn fitness_needs_a_router() {
    let routers: Vec<Vec<i32>> = Vec::new();
    let clients = vec![vec![0, 0]];
    assert_eq!(fitness_function(&routers, &clients, 2_000_000, &reference_weights()), None);
    assert_eq!(metrics(&routers, &clients, 2_000_000), None);
}
