use seedling::edge::NodeMap;
use seedling::node_label::NodeLabels;

#[test]
fn insert_is_set_like() {
    let mut labels = NodeLabels::new();
    assert!(labels.insert(3));
    assert!(labels.insert(5));
    assert!(!labels.insert(3));
    assert_eq!(labels.as_slice(), &[3, 5]);
    assert!(labels.contains(5));
    assert!(!labels.contains(4));
}

#[test]
fn remove_reports_membership() {
    let mut labels = NodeLabels::default();
    labels.insert(1);
    labels.insert(2);
    assert!(labels.remove(1));
    assert!(!labels.remove(1));
    assert_eq!(labels.as_slice(), &[2]);
}

#[test]
fn insert_then_remove_restores() {
    let mut labels = NodeLabels::new();
    labels.insert(8);
    labels.insert(9);
    let before = labels.as_slice().to_vec();
    assert!(labels.insert(4));
    assert!(labels.remove(4));
    assert_eq!(labels.as_slice(), &before[..]);
}

#[test]
fn register_and_forget() {
    let mut labels = NodeLabels::new();
    labels.insert(1);
    labels.insert(2);
    let mut map = NodeMap::default();
    map.insert(3, 99);
    map.register(&labels, 42);
    assert_eq!(map.get(1), Some(42));
    assert_eq!(map.get(2), Some(42));
    assert_eq!(map.get(3), Some(99));
    map.forget(&labels);
    assert_eq!(map.get(1), None);
    assert_eq!(map.get(2), None);
    assert_eq!(map.get(3), Some(99));
}
