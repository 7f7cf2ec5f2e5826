use tosm::model::{Node, SourceFile, Way};
use tosm::store::TOSMFile;

fn node(id: u64, lat: f64, lon: f64) -> Node {
    Node { id, lat_bits: lat.to_bits(), lon_bits: lon.to_bits() }
}

fn way(id: u64, node_ids: &[u64], one_way: bool, name: Option<&str>) -> Way {
    Way { id, node_ids: node_ids.to_vec(), one_way, name: name.map(|text| text.to_string()) }
}

fn small_store() -> TOSMFile {
    TOSMFile::from_source(SourceFile {
        nodes: vec![node(1, 64.0, -21.0)],
        ways: vec![way(9, &[1, 5], true, Some("Æ"))],
    })
    .unwrap()
}

fn small_store_bytes() -> Vec<u8> {
    vec![
        // one node
        1, 0, 0, 0, 0, 0, 0, 0, //
        1, 0, 0, 0, 0, 0, 0, 0, //
        0, 0, 0, 0, 0, 0, 0x50, 0x40, //
        0, 0, 0, 0, 0, 0, 0x35, 0xc0, //
        // one way
        1, 0, 0, 0, 0, 0, 0, 0, //
        9, 0, 0, 0, 0, 0, 0, 0, //
        2, 0, 0, 0, 0, 0, 0, 0, //
        1, 0, 0, 0, 0, 0, 0, 0, //
        5, 0, 0, 0, 0, 0, 0, 0, //
        1, //
        1, 2, 0, 0, 0, 0, 0, 0, 0, 0xc3, 0x86, //
        // node table
        1, 0, 0, 0, 0, 0, 0, 0, //
        1, 0, 0, 0, 0, 0, 0, 0, //
        0, 0, 0, 0, 0, 0, 0, 0, //
        // way table
        1, 0, 0, 0, 0, 0, 0, 0, //
        9, 0, 0, 0, 0, 0, 0, 0, //
        0, 0, 0, 0, 0, 0, 0, 0, //
        // one point
        1, 0, 0, 0, 0, 0, 0, 0, //
        0, 0, 0, 0, 0, 0, 0x50, 0x40, //
        0, 0, 0, 0, 0, 0, 0x35, 0xc0, //
        1, 0, 0, 0, 0, 0, 0, 0, //
    ]
}

fn larger_store() -> TOSMFile {
    TOSMFile::from_source(SourceFile {
        nodes: vec![
            node(35618126, 64.1422, -21.9385),
            node(7, -0.0, 0.0),
            node(u64::MAX, 5e-324, -179.999999),
            node(7, 89.5, 1e-300),
        ],
        ways: vec![
            way(100, &[35618126, 7, 12345], false, Some("Fjólugata")),
            way(101, &[], true, None),
            way(100, &[7], true, Some("")),
            way(0, &[u64::MAX, 0], false, Some("日本語 \u{1F5FA}")),
        ],
    })
    .unwrap()
}

fn assert_same(left: &TOSMFile, right: &TOSMFile) {
    assert_eq!(left.nodes(), right.nodes());
    assert_eq!(left.ways(), right.ways());
    assert_eq!(left.node_indexes(), right.node_indexes());
    assert_eq!(left.way_indexes(), right.way_indexes());
    assert_eq!(left.kd_tree().entries(), right.kd_tree().entries());
}

#[test]
fn small_store_encodes_to_known_bytes() {
    assert_eq!(small_store().encode(), small_store_bytes());
}

#[test]
fn known_bytes_decode_to_small_store() {
    let decoded = TOSMFile::decode(&small_store_bytes()).unwrap();
    assert_same(&decoded, &small_store());
    assert_eq!(decoded.ways()[0].name.as_deref(), Some("Æ"));
    assert_eq!(f64::from_bits(decoded.nodes()[0].lat_bits), 64.0);
    assert_eq!(f64::from_bits(decoded.nodes()[0].lon_bits), -21.0);
}

#[test]
fn empty_store_encodes_to_five_zero_counts() {
    let file = TOSMFile::from_source(SourceFile { nodes: vec![], ways: vec![] }).unwrap();
    let bytes = file.encode();
    assert_eq!(bytes, vec![0u8; 40]);
    let decoded = TOSMFile::decode(&bytes).unwrap();
    assert_same(&decoded, &file);
}

#[test]
fn encode_then_decode_gives_the_same_store() {
    let file = larger_store();
    let decoded = TOSMFile::decode(&file.encode()).unwrap();
    assert_same(&decoded, &file);
    assert_eq!(decoded.node_position(7), Some(3));
    assert_eq!(decoded.way_position(100), Some(2));
}

#[test]
fn coordinates_keep_their_bit_patterns() {
    let file = larger_store();
    let decoded = TOSMFile::decode(&file.encode()).unwrap();
    assert_eq!(decoded.nodes()[1].lat_bits, 0x8000_0000_0000_0000);
    assert_eq!(decoded.nodes()[1].lon_bits, 0);
    assert_eq!(decoded.nodes()[2].lat_bits, 1);
}

#[test]
fn decode_then_encode_gives_the_same_bytes() {
    let bytes = larger_store().encode();
    assert_eq!(TOSMFile::decode(&bytes).unwrap().encode(), bytes);
}

#[test]
fn encoding_is_the_same_every_time() {
    assert_eq!(larger_store().encode(), larger_store().encode());
}

#[test]
fn lookup_tables_are_written_in_position_order() {
    let file = TOSMFile::from_source(SourceFile {
        nodes: vec![node(5, 0.0, 0.0), node(3, 0.0, 0.0), node(5, 0.0, 0.0)],
        ways: vec![],
    })
    .unwrap();
    let bytes = file.encode();
    let table = &bytes[8 + 3 * 24 + 8..8 + 3 * 24 + 8 + 8 + 2 * 16];
    let mut expected = vec![];
    for value in [2u64, 3, 1, 5, 2] {
        expected.extend_from_slice(&value.to_le_bytes());
    }
    assert_eq!(table, &expected[..]);
}

#[test]
fn empty_input_does_not_decode() {
    assert!(TOSMFile::decode(&[]).is_none());
}

#[test]
fn truncated_input_does_not_decode() {
    let bytes = larger_store().encode();
    for length in 0..bytes.len() {
        assert!(TOSMFile::decode(&bytes[..length]).is_none());
    }
}

#[test]
fn trailing_byte_does_not_decode() {
    let mut bytes = small_store_bytes();
    bytes.push(0);
    assert!(TOSMFile::decode(&bytes).is_none());
}

#[test]
fn direction_byte_other_than_zero_or_one_does_not_decode() {
    let mut bytes = small_store_bytes();
    assert_eq!(bytes[72], 1);
    bytes[72] = 2;
    assert!(TOSMFile::decode(&bytes).is_none());
    bytes[72] = 0;
    assert!(!TOSMFile::decode(&bytes).unwrap().ways()[0].one_way);
}

#[test]
fn name_tag_other_than_zero_or_one_does_not_decode() {
    let mut bytes = small_store_bytes();
    assert_eq!(bytes[73], 1);
    bytes[73] = 2;
    assert!(TOSMFile::decode(&bytes).is_none());
}

#[test]
fn name_that_is_not_utf8_does_not_decode() {
    let mut bytes = small_store_bytes();
    assert_eq!(bytes[82], 0xc3);
    bytes[82] = 0xff;
    assert!(TOSMFile::decode(&bytes).is_none());
    bytes[82] = b'a';
    bytes[83] = b'b';
    assert_eq!(TOSMFile::decode(&bytes).unwrap().ways()[0].name.as_deref(), Some("ab"));
}

#[test]
fn name_longer_than_the_input_does_not_decode() {
    let mut bytes = small_store_bytes();
    bytes[74] = 200;
    assert!(TOSMFile::decode(&bytes).is_none());
    bytes[74] = 2;
    bytes[81] = 0x80;
    assert!(TOSMFile::decode(&bytes).is_none());
}

#[test]
fn count_larger_than_the_input_does_not_decode() {
    let mut bytes = small_store_bytes();
    bytes[7] = 0xff;
    assert!(TOSMFile::decode(&bytes).is_none());
    let mut bytes = small_store_bytes();
    bytes[32] = 2;
    assert!(TOSMFile::decode(&bytes).is_none());
    let mut bytes = small_store_bytes();
    bytes[55] = 0x7f;
    assert!(TOSMFile::decode(&bytes).is_none());
}

#[test]
fn non_finite_coordinate_does_not_decode() {
    let mut bytes = small_store_bytes();
    let nan = f64::NAN.to_bits().to_le_bytes();
    bytes[16..24].copy_from_slice(&nan);
    bytes[140..148].copy_from_slice(&nan);
    assert!(TOSMFile::decode(&bytes).is_none());
    let finite = 1.25f64.to_bits().to_le_bytes();
    bytes[16..24].copy_from_slice(&finite);
    bytes[140..148].copy_from_slice(&finite);
    assert_eq!(TOSMFile::decode(&bytes).unwrap().nodes()[0].lat_bits, 1.25f64.to_bits());
}

#[test]
fn lookup_table_that_disagrees_with_records_does_not_decode() {
    let valid = small_store_bytes();
    for (offset, value) in [(84, 2), (92, 2), (100, 1), (108, 0), (116, 8), (124, 1)] {
        let mut bytes = valid.clone();
        assert_ne!(bytes[offset], value);
        bytes[offset] = value;
        assert!(TOSMFile::decode(&bytes).is_none());
    }
}

#[test]
fn point_index_that_disagrees_with_nodes_does_not_decode() {
    let valid = small_store_bytes();
    for (offset, value) in [(132, 0), (132, 2), (146, 0x51), (154, 0x36), (156, 2)] {
        let mut bytes = valid.clone();
        assert_ne!(bytes[offset], value);
        bytes[offset] = value;
        assert!(TOSMFile::decode(&bytes).is_none());
    }
}

#[test]
fn changing_a_record_without_its_point_does_not_decode() {
    let mut bytes = small_store_bytes();
    bytes[8] = 4;
    assert!(TOSMFile::decode(&bytes).is_none());
    bytes[92] = 4;
    assert!(TOSMFile::decode(&bytes).is_none());
    bytes[156] = 4;
    assert_eq!(TOSMFile::decode(&bytes).unwrap().node_position(4), Some(0));
}
