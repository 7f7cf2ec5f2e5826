use kdtree::KdTree;
use tosm::model::{Node, SourceFile};
use tosm::spatial::{coordinate_is_finite, IndexError, SpatialEntry, SpatialIndex};
use tosm::store::TOSMFile;

fn haversine(a: &[f64], b: &[f64]) -> f64 {
    let lat1 = a[0].to_radians();
    let lon1 = a[1].to_radians();
    let lat2 = b[0].to_radians();
    let lon2 = b[1].to_radians();
    let dlathalf = (lat2 - lat1) * 0.5;
    let dlonhalf = (lon2 - lon1) * 0.5;
    let h = (dlathalf.sin().powi(2) + lat1.cos() * lat2.cos() * dlonhalf.sin().powi(2)).sqrt();
    h.clamp(0.0, 1.0).asin() * 2.0 * 6371.0
}

fn tree_of(index: &SpatialIndex) -> KdTree<f64, u64, [f64; 2]> {
    let mut tree = KdTree::new(2);
    for entry in index.entries() {
        tree.add([f64::from_bits(entry.lat_bits), f64::from_bits(entry.lon_bits)], entry.id)
            .unwrap();
    }
    tree
}

#[test]
fn finite_numbers_are_accepted() {
    for value in [
        0.0,
        -0.0,
        1.5,
        -21.938559,
        64.142257,
        f64::MAX,
        f64::MIN,
        f64::MIN_POSITIVE,
        f64::EPSILON,
        5e-324,
        -5e-324,
    ] {
        assert!(value.is_finite());
        assert!(coordinate_is_finite(value.to_bits()));
    }
}

#[test]
fn infinities_and_nan_are_refused() {
    for value in [f64::INFINITY, f64::NEG_INFINITY, f64::NAN, -f64::NAN] {
        assert!(!value.is_finite());
        assert!(!coordinate_is_finite(value.to_bits()));
    }
    assert!(!coordinate_is_finite(0x7ff0_0000_0000_0001));
    assert!(!coordinate_is_finite(0xffff_ffff_ffff_ffff));
    assert!(coordinate_is_finite(0x7fef_ffff_ffff_ffff));
    assert!(coordinate_is_finite(0x000f_ffff_ffff_ffff));
}

#[test]
fn insert_appends_in_order() {
    let mut index = SpatialIndex::new();
    assert_eq!(index.len(), 0);
    assert_eq!(index.insert(1.0f64.to_bits(), 2.0f64.to_bits(), 10), Ok(()));
    assert_eq!(index.insert(3.0f64.to_bits(), 4.0f64.to_bits(), 20), Ok(()));
    assert_eq!(index.len(), 2);
    assert_eq!(
        index.entries(),
        &vec![
            SpatialEntry { lat_bits: 1.0f64.to_bits(), lon_bits: 2.0f64.to_bits(), id: 10 },
            SpatialEntry { lat_bits: 3.0f64.to_bits(), lon_bits: 4.0f64.to_bits(), id: 20 },
        ]
    );
}

#[test]
fn insert_refuses_non_finite_and_leaves_index_unchanged() {
    let mut index = SpatialIndex::new();
    index.insert(1.0f64.to_bits(), 2.0f64.to_bits(), 10).unwrap();
    assert_eq!(
        index.insert(f64::NAN.to_bits(), 2.0f64.to_bits(), 11),
        Err(IndexError::NonFiniteCoordinate)
    );
    assert_eq!(
        index.insert(1.0f64.to_bits(), f64::INFINITY.to_bits(), 12),
        Err(IndexError::NonFiniteCoordinate)
    );
    assert_eq!(index.len(), 1);
    assert_eq!(index.entries()[0].id, 10);
}

#[test]
fn index_refuses_what_the_tree_refuses() {
    let mut tree: KdTree<f64, u64, [f64; 2]> = KdTree::new(2);
    let mut index = SpatialIndex::new();
    for (lat, lon) in [(1.0, 2.0), (f64::NAN, 0.0), (0.0, f64::INFINITY), (-90.0, 180.0)] {
        let in_tree = tree.add([lat, lon], 1).is_ok();
        let in_index = index.insert(lat.to_bits(), lon.to_bits(), 1).is_ok();
        assert_eq!(in_tree, in_index);
    }
    assert_eq!(tree.size(), index.len());
}

#[test]
fn nearest_of_two_nodes_is_the_closer_one() {
    let nodes = vec![
        Node { id: 1, lat_bits: 64.0f64.to_bits(), lon_bits: (-21.0f64).to_bits() },
        Node { id: 2, lat_bits: 64.2f64.to_bits(), lon_bits: (-21.9f64).to_bits() },
    ];
    let file = TOSMFile::from_source(SourceFile { nodes, ways: vec![] }).unwrap();
    let tree = tree_of(file.kd_tree());
    let query = [64.142257_f64, -21.938559_f64];
    let found = tree.nearest(&query, 1, &haversine).unwrap();
    assert_eq!(found.len(), 1);
    let (distance, id) = found[0];
    assert_eq!(*id, 2);
    let expected = haversine(&query, &[64.2, -21.9]);
    assert!((distance - expected).abs() < 1e-9);
    assert!((distance - 6.687).abs() < 0.01);
}

#[test]
fn nearest_on_empty_store_is_empty() {
    let file = TOSMFile::from_source(SourceFile { nodes: vec![], ways: vec![] }).unwrap();
    let tree = tree_of(file.kd_tree());
    assert_eq!(tree.size(), 0);
    assert!(tree.nearest(&[64.0, -21.0], 1, &haversine).unwrap().is_empty());
    assert!(tree.nearest(&[0.0, 0.0], 5, &haversine).unwrap().is_empty());
}

#[test]
fn nearest_clamps_the_count() {
    let nodes = vec![
        Node { id: 1, lat_bits: 64.0f64.to_bits(), lon_bits: (-21.0f64).to_bits() },
        Node { id: 2, lat_bits: 64.2f64.to_bits(), lon_bits: (-21.9f64).to_bits() },
    ];
    let file = TOSMFile::from_source(SourceFile { nodes, ways: vec![] }).unwrap();
    let tree = tree_of(file.kd_tree());
    let query = [64.142257_f64, -21.938559_f64];
    assert!(tree.nearest(&query, 0, &haversine).unwrap().is_empty());
    let all = tree.nearest(&query, 10, &haversine).unwrap();
    assert_eq!(all.len(), 2);
    assert_eq!((*all[0].1, *all[1].1), (2, 1));
    assert!(all[0].0 <= all[1].0);
}
