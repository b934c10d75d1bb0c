use constant_multiplication::errors::QueryError;
use constant_multiplication::fmt::{extract_shift, usize_to_string};
use constant_multiplication::graph::GraphType;
use constant_multiplication::query::info;

#[test]
fn decimal_rendering() {
    assert_eq!(usize_to_string(0), "0");
    assert_eq!(usize_to_string(9), "9");
    assert_eq!(usize_to_string(10), "10");
    assert_eq!(usize_to_string(105), "105");
    assert_eq!(usize_to_string(524288), "524288");
}

#[test]
fn shift_display() {
    assert_eq!(extract_shift(5), "5");
    assert_eq!(extract_shift(1), "1");
    assert_eq!(extract_shift(6), "3 << 1");
    assert_eq!(extract_shift(4), "1 << 2");
    assert_eq!(extract_shift(96), "3 << 5");
}

#[test]
fn graph_repr_matches_format() {
    let g = GraphType::Leapfrog4_2(6, 1, 5, 4);
    assert_eq!(g.repr(), "Leapfrog4_2(3 << 1, 1, 5, 1 << 2)");
    let a = GraphType::Adder(1, 2);
    assert_eq!(a.repr(), "Adder(1, 1 << 1)");
    let s = GraphType::Subtractor(8, 1);
    assert_eq!(s.repr(), "Subtractor(1 << 3, 1)");
    let c = GraphType::Cascade(5, 9);
    assert_eq!(c.repr(), "Cascade(5, 9)");
    let l7 = GraphType::Leapfrog7_8(1, 2, 3, 4, 5, 6, 7);
    assert_eq!(l7.repr(), "Leapfrog7_8(1, 1 << 1, 3, 1 << 2, 5, 3 << 1, 7)");
}

#[test]
fn variant_names_and_tags() {
    assert_eq!(GraphType::Adder(1, 2).variant_name(), "Adder");
    assert_eq!(GraphType::Adder(1, 2).tag(), 0);
    assert_eq!(GraphType::Subtractor(8, 1).tag(), 1);
    assert_eq!(GraphType::Cascade(5, 9).tag(), 2);
    assert_eq!(GraphType::Leapfrog4_1(1, 1, 1, 1).tag(), 3);
    assert_eq!(GraphType::Leapfrog5_4(1, 1, 1, 1, 1).tag(), 10);
    assert_eq!(GraphType::Leapfrog7_7(1, 1, 1, 1, 1, 1, 1).tag(), 17);
    assert_eq!(GraphType::Leapfrog7_8(1, 1, 1, 1, 1, 1, 1).tag(), 18);
}

#[test]
fn params_in_expression_order() {
    let g = GraphType::Leapfrog5_1(3, 1, 5, 2, 7);
    assert_eq!(g.params(), vec![3, 1, 5, 2, 7]);
}

#[test]
fn info_summary() {
    assert_eq!(
        info(131072, 49152, 2048),
        "Embedded data: 262144 elements, 49152 bytes packed, graph types: 2048 bytes compressed"
    );
}

#[test]
fn error_descriptions() {
    assert_eq!(QueryError::IndexError.describe(), "Index out of range");
    assert_eq!(QueryError::DataCorruptionError.describe(), "Data corruption");
    assert_eq!(QueryError::ValueError.describe(), "Invalid value");
}
