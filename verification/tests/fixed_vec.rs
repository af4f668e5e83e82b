use seedling::fixed_vec::FixedVec;

#[test]
fn push_below_capacity_returns_none() {
    let mut v: FixedVec<u32> = FixedVec::new(3);
    assert_eq!(v.push(1), None);
    assert_eq!(v.push(2), None);
    assert_eq!(v.as_slice(), &[1, 2]);
    assert_eq!(v.len(), 2);
    assert!(!v.is_empty());
}

#[test]
fn push_at_capacity_evicts_oldest() {
    let mut v: FixedVec<u32> = FixedVec::new(3);
    for x in 1..=3 {
        assert_eq!(v.push(x), None);
    }
    assert_eq!(v.push(4), Some(1));
    assert_eq!(v.push(5), Some(2));
    assert_eq!(v.as_slice(), &[3, 4, 5]);
    assert_eq!(v.len(), 3);
    assert_eq!(v.capacity(), 3);
}

#[test]
fn zero_capacity_stores_nothing() {
    let mut v: FixedVec<u32> = FixedVec::new(0);
    assert_eq!(v.push(7), None);
    assert!(v.is_empty());
    assert_eq!(v.capacity(), 0);
}

#[test]
fn keeps_the_latest_values() {
    // After pushing 1..=10 into a capacity of 4, the last 4 remain.
    let mut v: FixedVec<u32> = FixedVec::new(4);
    for x in 1..=10 {
        v.push(x);
    }
    assert_eq!(v.as_slice(), &[7, 8, 9, 10]);
}

#[test]
fn clear_keeps_capacity() {
    let mut v: FixedVec<u32> = FixedVec::new(2);
    v.push(1);
    v.push(2);
    v.clear();
    assert!(v.is_empty());
    assert_eq!(v.capacity(), 2);
    assert_eq!(v.push(3), None);
}

#[test]
fn default_capacity_is_sixteen() {
    let v: FixedVec<u8> = FixedVec::default();
    assert_eq!(v.capacity(), 16);
    assert!(v.is_empty());
}

#[test]
fn clone_keeps_capacity_and_contents() {
    let mut v: FixedVec<String> = FixedVec::new(5);
    v.push("a".to_string());
    let c = v.clone();
    assert_eq!(c.capacity(), 5);
    assert_eq!(c.as_slice(), v.as_slice());
    assert!(c == v);
}

#[test]
fn mutable_slice_writes_in_place() {
    let mut v: FixedVec<u32> = FixedVec::new(2);
    v.push(1);
    v.push(2);
    v.as_mut_slice()[0] = 10;
    v[1] = 20;
    assert_eq!(&v[..], &[10, 20]);
    assert_eq!(v.push(30), Some(10));
}

#[test]
fn equality_ignores_capacity() {
    let mut a: FixedVec<u32> = FixedVec::new(2);
    let mut b: FixedVec<u32> = FixedVec::new(8);
    a.push(1);
    b.push(1);
    assert!(a == b);
    b.push(2);
    assert!(a != b);
}

#[test]
fn pushes_evict_oldest_first() {
    let mut v = FixedVec::new(3);
    let returned: Vec<Option<i32>> = (1..=6).map(|x| v.push(x)).collect();
    assert_eq!(returned, vec![None, None, None, Some(1), Some(2), Some(3)]);
    assert_eq!(v.as_slice(), &[4, 5, 6]);
    assert!(v.len() <= v.capacity());
}
