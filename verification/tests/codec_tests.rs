use constant_multiplication::artifact::{cost_artifact_bytes, graph_artifact_bytes};
use constant_multiplication::bitpack::pack_sparse_vector;
use constant_multiplication::codec::{deserialize_graph_types, serialize_graph_types};
use constant_multiplication::driver::run_search;
use constant_multiplication::errors::QueryError;
use constant_multiplication::graph::GraphType;
use constant_multiplication::query::{adder_cost, get_all_graph_types, get_graph_types};

fn sample_lists() -> Vec<Vec<GraphType>> {
    vec![
        vec![],
        vec![GraphType::Adder(1, 2), GraphType::Subtractor(4, 1)],
        vec![GraphType::Cascade(3, 5)],
        vec![GraphType::Leapfrog4_2(6, 1, 5, 4)],
        vec![GraphType::Leapfrog5_1(3, 1, 5, 2, 7), GraphType::Leapfrog7_8(
            1, 2, 3, 4, 5, 6, 7,
        )],
        vec![GraphType::Adder(300, 1 << 20)],
    ]
}

#[test]
fn serialize_then_deserialize_is_identity() {
    let lists = sample_lists();
    let bytes = serialize_graph_types(&lists);
    let decoded = deserialize_graph_types(&bytes).unwrap();
    assert_eq!(decoded, lists);
}

#[test]
fn serialized_stream_layout() {
    // one entry holding one Adder(1, 2): count 1, length 1, tag 0, varints 1 and 2
    let lists = vec![vec![GraphType::Adder(1, 2)]];
    let bytes = serialize_graph_types(&lists);
    assert_eq!(bytes, vec![1, 1, 0, 1, 2]);
}

#[test]
fn multi_byte_varints_round_trip() {
    // 300 = 0b1_0010_1100 encodes as 0xAC 0x02
    let lists = vec![vec![GraphType::Adder(300, 1)]];
    let bytes = serialize_graph_types(&lists);
    assert_eq!(bytes, vec![1, 1, 0, 0xAC, 0x02, 1]);
    assert_eq!(deserialize_graph_types(&bytes).unwrap(), lists);
}

#[test]
fn unknown_tag_is_rejected() {
    // count 1, length 1, tag 19
    let bytes = vec![1u8, 1, 19];
    assert_eq!(
        deserialize_graph_types(&bytes),
        Err(QueryError::DataCorruptionError)
    );
}

#[test]
fn truncated_varint_is_rejected() {
    // count 1, length 1, tag 0, then a varint that never ends
    let bytes = vec![1u8, 1, 0, 0x80];
    assert_eq!(
        deserialize_graph_types(&bytes),
        Err(QueryError::DataCorruptionError)
    );
}

#[test]
fn missing_record_is_rejected() {
    // count 1, length 2, but only one record follows
    let bytes = vec![1u8, 2, 0, 1, 2];
    assert_eq!(
        deserialize_graph_types(&bytes),
        Err(QueryError::DataCorruptionError)
    );
}

#[test]
fn compressed_artifact_round_trips() {
    let lists = sample_lists();
    let artifact = graph_artifact_bytes(&lists).unwrap();
    let decoded = get_all_graph_types(&artifact).unwrap();
    assert_eq!(decoded, lists);
}

#[test]
fn invalid_frame_is_data_corruption() {
    // claims four decompressed bytes but holds an impossible block
    let garbage = vec![4u8, 0, 0, 0, 0xF0];
    assert_eq!(
        get_all_graph_types(&garbage),
        Err(QueryError::DataCorruptionError)
    );
}

#[test]
fn graph_query_reduces_even_indices() {
    let (costs, graphs) = run_search(8, 2);
    assert_eq!(costs.len(), graphs.len());
    let artifact_lists: Vec<Vec<GraphType>> = (0..graphs.len())
        .filter(|i| i % 2 == 1)
        .map(|i| graphs[i].clone())
        .collect();
    let artifact = graph_artifact_bytes(&artifact_lists).unwrap();
    let at_five = get_graph_types(&artifact, 5).unwrap();
    let at_twenty = get_graph_types(&artifact, 20).unwrap();
    assert_eq!(at_five, at_twenty);
    assert!(at_five.contains(&GraphType::Adder(1, 4)));
    // index 1 decodes to an empty list; index 0 is out of range
    assert_eq!(get_graph_types(&artifact, 1).unwrap(), Vec::<GraphType>::new());
    assert_eq!(get_graph_types(&artifact, 0), Err(QueryError::IndexError));
    // one past the last odd in range
    assert_eq!(get_graph_types(&artifact, 257), Err(QueryError::IndexError));
}

#[test]
fn packed_fields_round_trip() {
    // encoding then decoding the cost table reproduces every 3-bit field
    let (costs, _) = run_search(8, 2);
    let (packed, count) = pack_sparse_vector(&costs);
    assert_eq!(count, costs.len() / 2);
    for j in 0..count {
        let idx = 2 * j + 1;
        assert_eq!(adder_cost(&packed, count, idx), Ok(costs[idx] & 7));
    }
}

#[test]
fn packed_bytes_exact() {
    // fields 1, 2, 3, 4 pack into two bytes, low bits first
    let sparse = vec![7u8, 1, 7, 2, 7, 3, 7, 4];
    let (packed, count) = pack_sparse_vector(&sparse);
    assert_eq!(count, 4);
    assert_eq!(packed, vec![0b11_010_001, 0b000_100_0]);
}

#[test]
fn cost_artifact_prefix_is_little_endian() {
    let packed = vec![0xAAu8, 0xBB];
    let artifact = cost_artifact_bytes(&packed, 0x0102);
    assert_eq!(artifact, vec![0x02, 0x01, 0, 0, 0, 0, 0, 0, 0xAA, 0xBB]);
}
