use firefly_mesh::coverage::{is_covered, ncmc, ncmcpr, per_router};

const U: i32 = 1_000_000;

#[test]
fn a_client_at_exactly_the_range_is_covered() {
    let routers = vec![vec![0, 0]];
    assert!(is_covered(&routers, &vec![3 * U, 4 * U], 5_000_000));
    assert!(!is_covered(&routers, &vec![3 * U, 4 * U], 4_999_999));
    assert_eq!(ncmc(&routers, &vec![vec![3 * U, 4 * U]], 5_000_000), 1);
    assert_eq!(ncmc(&routers, &vec![vec![3 * U, 4 * U]], 4_999_999), 0);
    assert_eq!(ncmc(&routers, &vec![vec![4_500_000, 0]], 4_500_000), 1);
    assert_eq!(ncmc(&routers, &vec![vec![4_500_001, 0]], 4_500_000), 0);
}

#[test]
fn no_router_covers_no_client() {
    let routers: Vec<Vec<i32>> = Vec::new();
    assert!(!is_covered(&routers, &vec![0, 0], u32::MAX));
    assert_eq!(ncmc(&routers, &vec![vec![0, 0], vec![1, 1]], u32::MAX), 0);
}

#[test]
fn covered_clients_are_counted_once() {
    let routers = vec![vec![0, 0], vec![10 * U, 0]];
    let clients = vec![vec![U, 0], vec![9 * U, 0], vec![5 * U, 0], vec![20 * U, 0]];
    assert_eq!(ncmc(&routers, &clients, 2_000_000), 2);
    assert_eq!(ncmc(&routers, &clients, 5_000_000), 3);
    assert_eq!(ncmc(&routers, &clients, 10_000_000), 4);
    assert_eq!(ncmc(&routers, &clients, 0), 0);
}

#[test]
fn the_count_does_not_depend_on_the_order_of_the_routers() {
    let clients = vec![vec![U, 0], vec![9 * U, 0], vec![5 * U, 0], vec![20 * U, 0]];
    let one = vec![vec![0, 0], vec![10 * U, 0], vec![19 * U, 0]];
    let other = vec![vec![19 * U, 0], vec![0, 0], vec![10 * U, 0]];
    assert_eq!(ncmc(&one, &clients, 2_000_000), 3);
    assert_eq!(ncmc(&other, &clients, 2_000_000), 3);
}

#[test]
fn no_clients_give_zero_coverage() {
    let routers = vec![vec![0, 0], vec![10 * U, 0]];
    let clients: Vec<Vec<i32>> = Vec::new();
    assert_eq!(ncmc(&routers, &clients, 4_500_000), 0);
    assert_eq!(ncmcpr(&routers, &clients, 4_500_000), Some(0));
}

#[test]
fn coverage_per_router_divides_by_the_number_of_routers() {
    let routers = vec![vec![0, 0], vec![10 * U, 0]];
    let clients = vec![vec![U, 0], vec![9 * U, 0], vec![5 * U, 0], vec![20 * U, 0]];
    assert_eq!(ncmcpr(&routers, &clients, 5_000_000), Some(1_500_000));
    assert_eq!(ncmcpr(&routers, &clients, 2_000_000), Some(1_000_000));
    assert_eq!(ncmcpr(&routers, &clients, 0), Some(0));
}

#[test]
fn coverage_per_router_rounds_down() {
    let routers = vec![vec![0, 0], vec![50 * U, 0], vec![90 * U, 0]];
    let clients = vec![vec![U, 0]];
    assert_eq!(ncmcpr(&routers, &clients, 2_000_000), Some(333_333));
    assert_eq!(per_router(2, 3), 666_666);
    assert_eq!(per_router(0, 7), 0);
    assert_eq!(per_router(32, 16), 2_000_000);
}

#[test]
fn coverage_per_router_needs_a_router() {
    let routers: Vec<Vec<i32>> = Vec::new();
    assert_eq!(ncmcpr(&routers, &vec![vec![0, 0]], 4_500_000), None);
    assert_eq!(ncmcpr(&routers, &Vec::new(), 4_500_000), None);
}
