use constant_multiplication::bitpack::pack_sparse_vector;
use constant_multiplication::driver::run_search;
use constant_multiplication::errors::QueryError;
use constant_multiplication::graph::GraphType;
use constant_multiplication::num::{findodd, findodd_u128};
use constant_multiplication::query::adder_cost;
use constant_multiplication::search::{create_shifted_variants, extract_cost_values};

fn small_tables() -> (Vec<u8>, Vec<Vec<GraphType>>) {
    // an eight-bit table: 256 entries plus index zero, searched to layer four
    run_search(8, 2)
}

fn packed_costs(costs: &Vec<u8>) -> (Vec<u8>, usize) {
    pack_sparse_vector(costs)
}

#[test]
fn findodd_basics() {
    assert_eq!(findodd(0), 0);
    assert_eq!(findodd(1), 1);
    assert_eq!(findodd(20), 5);
    assert_eq!(findodd(1024), 1);
    assert_eq!(findodd_u128(0), 0);
    assert_eq!(findodd_u128(3 << 40), 3);
}

#[test]
fn shifted_variants_cover_all_shifts() {
    let values = vec![3usize, 5];
    let shifted = create_shifted_variants(&values, 40);
    assert_eq!(shifted, vec![3, 6, 12, 24, 5, 10, 20, 40]);
}

#[test]
fn extract_cost_values_collects_indices() {
    let costs = vec![7u8, 0, 7, 1, 7, 1, 7, 7];
    assert_eq!(extract_cost_values(&costs, 1), vec![3, 5]);
    assert_eq!(extract_cost_values(&costs, 0), vec![1]);
}

#[test]
fn cost_of_one_is_zero() {
    let (costs, graphs) = small_tables();
    assert_eq!(costs[1], 0);
    assert!(graphs[1].is_empty());
    let (packed, count) = packed_costs(&costs);
    assert_eq!(adder_cost(&packed, count, 1), Ok(0));
}

#[test]
fn powers_of_two_cost_zero() {
    let (costs, _) = small_tables();
    let (packed, count) = packed_costs(&costs);
    assert_eq!(adder_cost(&packed, count, 2), Ok(0));
    assert_eq!(adder_cost(&packed, count, 16), Ok(0));
    assert_eq!(adder_cost(&packed, count, 128), Ok(0));
}

#[test]
fn cost_of_three_is_one_with_adder() {
    let (costs, graphs) = small_tables();
    assert_eq!(costs[3], 1);
    assert!(graphs[3].contains(&GraphType::Adder(1, 2)));
    let (packed, count) = packed_costs(&costs);
    assert_eq!(adder_cost(&packed, count, 3), Ok(1));
}

#[test]
fn cost_of_five_is_one_with_adder() {
    let (costs, graphs) = small_tables();
    assert_eq!(costs[5], 1);
    assert!(graphs[5].contains(&GraphType::Adder(1, 4)));
    let (packed, count) = packed_costs(&costs);
    assert_eq!(adder_cost(&packed, count, 5), Ok(1));
}

#[test]
fn seven_realized_by_subtractor() {
    // 7 = 8 - 1 is already reachable with a single subtractor
    let (costs, graphs) = small_tables();
    assert_eq!(costs[7], 1);
    assert!(graphs[7].contains(&GraphType::Subtractor(8, 1)));
}

#[test]
fn same_layer_ties_collect_all_graphs() {
    // 3 is reached as 1 + 2 and, in the same layer, as |1 - 4|; the tie
    // comparison keeps collecting graphs, so both records are stored
    let (costs, graphs) = small_tables();
    assert_eq!(costs[3], 1);
    assert!(graphs[3].contains(&GraphType::Adder(1, 2)));
    assert!(graphs[3].contains(&GraphType::Subtractor(4, 1)));
}

#[test]
fn stored_pairs_are_canonically_ordered() {
    let (_, graphs) = small_tables();
    for lists in &graphs {
        for g in lists {
            match *g {
                GraphType::Adder(a, b) => assert!(a <= b),
                GraphType::Subtractor(a, b) => assert!(a >= b),
                GraphType::Cascade(a, b) => assert!(a <= b),
                _ => {}
            }
        }
    }
}

#[test]
fn forty_five_within_three_adders_as_cascade() {
    let (costs, graphs) = small_tables();
    assert!(costs[45] <= 3);
    assert!(graphs[45].contains(&GraphType::Cascade(5, 9)));
}

#[test]
fn one_hundred_five_within_four_adders() {
    let (costs, graphs) = small_tables();
    assert!(costs[105] <= 4);
    assert!(!graphs[105].is_empty());
}

#[test]
fn even_index_shares_cost_of_odd_kernel() {
    let (costs, _) = small_tables();
    let (packed, count) = packed_costs(&costs);
    assert_eq!(adder_cost(&packed, count, 20), adder_cost(&packed, count, 5));
    assert_eq!(adder_cost(&packed, count, 20), Ok(1));
}

#[test]
fn index_zero_is_out_of_range() {
    let (costs, _) = small_tables();
    let (packed, count) = packed_costs(&costs);
    assert_eq!(adder_cost(&packed, count, 0), Err(QueryError::IndexError));
}

#[test]
fn index_past_last_odd_is_out_of_range() {
    let (costs, _) = small_tables();
    let (packed, count) = packed_costs(&costs);
    // the last odd in range is 255 at position 127; 257 reduces to position 128
    assert_eq!(adder_cost(&packed, count, 255), Ok(costs[255] & 7));
    assert_eq!(adder_cost(&packed, count, 257), Err(QueryError::IndexError));
}

#[test]
fn truncated_buffer_is_data_corruption() {
    // a field count that promises more bytes than the buffer holds
    let empty: Vec<u8> = Vec::new();
    assert_eq!(adder_cost(&empty, 5, 3), Err(QueryError::DataCorruptionError));
}

#[test]
fn every_graph_realizes_its_index() {
    let (costs, graphs) = small_tables();
    for n in 0..graphs.len() {
        for g in &graphs[n] {
            let value: u128 = evaluate(g);
            assert_eq!(findodd_u128(value), n as u128, "graph at {} evaluates wrong", n);
            assert!(!graphs[n].is_empty());
        }
        if n >= 2 && costs[n] < 7 {
            assert!(!graphs[n].is_empty(), "reached index {} has no graph", n);
        }
    }
}

#[test]
fn every_leaf_comes_from_a_cheaper_frontier() {
    let (costs, graphs) = small_tables();
    for n in 0..graphs.len() {
        for g in &graphs[n] {
            for v in g.params() {
                assert!(v >= 1);
                let kernel = findodd(v);
                assert!(costs[kernel] < costs[n], "leaf {} of index {} not cheaper", v, n);
            }
        }
    }
}

#[test]
fn addsub_completeness_over_the_table() {
    // cost(n) <= cost(a) + cost(b) + 1 whenever n is the odd kernel of a + b
    // or of |a - b|, for odd a, b in range with costs found by the search
    let (costs, _) = small_tables();
    for a in (1..costs.len()).step_by(2) {
        if costs[a] >= 7 {
            continue;
        }
        for b in (1..costs.len()).step_by(2) {
            if costs[b] >= 7 || costs[a] + costs[b] + 1 > 4 {
                continue;
            }
            let sum = findodd(a + b);
            if sum < costs.len() {
                assert!(
                    costs[sum] <= costs[a] + costs[b] + 1,
                    "sum {} of {} and {} too costly",
                    sum,
                    a,
                    b
                );
            }
            let diff = findodd(a.abs_diff(b));
            if diff != 0 && diff < costs.len() {
                assert!(
                    costs[diff] <= costs[a] + costs[b] + 1,
                    "difference {} of {} and {} too costly",
                    diff,
                    a,
                    b
                );
            }
        }
    }
}

fn evaluate(g: &GraphType) -> u128 {
    fn d(x: u128, y: u128) -> u128 {
        x.abs_diff(y)
    }
    match *g {
        GraphType::Adder(a, b) => a as u128 + b as u128,
        GraphType::Subtractor(a, b) => d(a as u128, b as u128),
        GraphType::Cascade(a, b) => a as u128 * b as u128,
        GraphType::Leapfrog4_1(a, b, dd, e) => {
            e as u128 * (a as u128 + b as u128) + a as u128 * dd as u128
        }
        GraphType::Leapfrog4_2(a, b, dd, e) => {
            d(e as u128 * (a as u128 + b as u128), a as u128 * dd as u128)
        }
        GraphType::Leapfrog4_3(a, b, dd, e) => {
            e as u128 * d(a as u128, b as u128) + a as u128 * dd as u128
        }
        GraphType::Leapfrog4_4(a, b, dd, e) => {
            d(e as u128 * d(a as u128, b as u128), a as u128 * dd as u128)
        }
        GraphType::Leapfrog5_1(a, b, c, dd, e) => {
            e as u128 * (a as u128 * c as u128 + b as u128) + a as u128 * dd as u128
        }
        GraphType::Leapfrog5_2(a, b, c, dd, e) => d(
            e as u128 * (a as u128 * c as u128 + b as u128),
            a as u128 * dd as u128,
        ),
        GraphType::Leapfrog5_3(a, b, c, dd, e) => {
            e as u128 * d(a as u128 * c as u128, b as u128) + a as u128 * dd as u128
        }
        GraphType::Leapfrog5_4(a, b, c, dd, e) => d(
            e as u128 * d(a as u128 * c as u128, b as u128),
            a as u128 * dd as u128,
        ),
        GraphType::Leapfrog7_1(a, b, c, dd, e, f, g7) => {
            let p = a as u128 * c as u128 + b as u128;
            g7 as u128 * (e as u128 * p + a as u128 * dd as u128) + f as u128 * p
        }
        GraphType::Leapfrog7_2(a, b, c, dd, e, f, g7) => {
            let q = d(a as u128 * c as u128, b as u128);
            g7 as u128 * (e as u128 * q + a as u128 * dd as u128) + f as u128 * q
        }
        GraphType::Leapfrog7_3(a, b, c, dd, e, f, g7) => {
            let p = a as u128 * c as u128 + b as u128;
            g7 as u128 * d(e as u128 * p, a as u128 * dd as u128) + f as u128 * p
        }
        GraphType::Leapfrog7_4(a, b, c, dd, e, f, g7) => {
            let p = a as u128 * c as u128 + b as u128;
            d(
                g7 as u128 * (e as u128 * p + a as u128 * dd as u128),
                f as u128 * p,
            )
        }
        GraphType::Leapfrog7_5(a, b, c, dd, e, f, g7) => {
            let q = d(a as u128 * c as u128, b as u128);
            g7 as u128 * d(e as u128 * q, a as u128 * dd as u128) + f as u128 * q
        }
        GraphType::Leapfrog7_6(a, b, c, dd, e, f, g7) => {
            let q = d(a as u128 * c as u128, b as u128);
            d(
                g7 as u128 * (e as u128 * q + a as u128 * dd as u128),
                f as u128 * q,
            )
        }
        GraphType::Leapfrog7_7(a, b, c, dd, e, f, g7) => {
            let p = a as u128 * c as u128 + b as u128;
            d(
                g7 as u128 * d(e as u128 * p, a as u128 * dd as u128),
                f as u128 * p,
            )
        }
        GraphType::Leapfrog7_8(a, b, c, dd, e, f, g7) => {
            let q = d(a as u128 * c as u128, b as u128);
            d(
                g7 as u128 * d(e as u128 * q, a as u128 * dd as u128),
                f as u128 * q,
            )
        }
    }
}
