use firefly_mesh::connectivity::sgc;

const U: i32 = 1_000_000;

#[test]
fn four_routers_on_a_unit_square_are_one_component() {
    let routers = vec![vec![0, 0], vec![U, 0], vec![0, U], vec![U, U]];
    assert_eq!(sgc(&routers, 2_000_000), 4);
}

#[test]
fn links_of_exactly_the_range_count() {
    let routers = vec![vec![0, 0], vec![U, 0], vec![0, U], vec![U, U]];
    assert_eq!(sgc(&routers, 1_000_000), 4);
    assert_eq!(sgc(&routers, 999_999), 1);
}

#[test]
fn no_router_gives_zero() {
    let routers: Vec<Vec<i32>> = Vec::new();
    assert_eq!(sgc(&routers, 4_500_000), 0);
}

#[test]
fn a_single_router_is_a_component_of_one() {
    assert_eq!(sgc(&vec![vec![5 * U, 7 * U]], 4_500_000), 1);
    assert_eq!(sgc(&vec![vec![5 * U, 7 * U]], 0), 1);
}

#[test]
fn isolated_routers_give_one() {
    let routers = vec![vec![0, 0], vec![10 * U, 0], vec![0, 10 * U], vec![10 * U, 10 * U]];
    assert_eq!(sgc(&routers, 4_500_000), 1);
}

#[test]
fn the_largest_of_several_components_is_reported() {
    let routers = vec![
        vec![100 * U, 0],
        vec![0, 0],
        vec![U, 0],
        vec![101 * U, 0],
        vec![2 * U, 0],
        vec![500 * U, 0],
    ];
    assert_eq!(sgc(&routers, 1_000_000), 3);
}

#[test]
fn routers_connect_through_others() {
    let routers = vec![vec![0], vec![2 * U], vec![U], vec![3 * U]];
    assert_eq!(sgc(&routers, 1_000_000), 4);
    assert_eq!(sgc(&routers, 999_999), 1);
}

#[test]
fn routers_at_one_place_are_connected_at_range_zero() {
    let routers = vec![vec![4, 4], vec![4, 4], vec![4, 5]];
    assert_eq!(sgc(&routers, 0), 2);
}

#[test]
fn the_component_size_lies_between_one_and_the_count() {
    let routers = vec![vec![0, 0], vec![3 * U, 0], vec![9 * U, 0], vec![11 * U, 0], vec![30 * U, 0]];
    for range in [0u32, 1_000_000, 2_000_000, 3_000_000, 6_000_000, 19_000_000] {
        let size = sgc(&routers, range);
        assert!(1 <= size && size <= routers.len());
    }
    assert_eq!(sgc(&routers, 3_000_000), 2);
    assert_eq!(sgc(&routers, 6_000_000), 4);
    assert_eq!(sgc(&routers, 19_000_000), 5);
}
