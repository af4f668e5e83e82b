use seedling::incremental_max::IncrementalMax;

#[test]
fn starts_at_zero() {
    let m = IncrementalMax::new(5);
    assert_eq!(m.len(), 5);
    assert_eq!(m.max(), 0);
}

#[test]
fn max_follows_updates() {
    let mut m = IncrementalMax::new(5);
    m.set(0, 3);
    m.set(4, 9);
    m.set(2, 7);
    assert_eq!(m.max(), 9);
    m.set(4, 1);
    assert_eq!(m.max(), 7);
    m.set(2, 0);
    assert_eq!(m.max(), 3);
}

#[test]
fn padding_slot_counts() {
    // An odd length gets one extra settable slot.
    let mut m = IncrementalMax::new(3);
    m.set(3, 42);
    assert_eq!(m.max(), 42);
}

#[test]
fn single_slot() {
    let mut m = IncrementalMax::new(1);
    m.set(0, 5);
    assert_eq!(m.max(), 5);
    m.set(0, 2);
    assert_eq!(m.max(), 2);
}

#[test]
fn clear_resets() {
    let mut m = IncrementalMax::new(8);
    for i in 0..8 {
        m.set(i, (i as u32 + 1) * 10);
    }
    assert_eq!(m.max(), 80);
    m.clear();
    assert_eq!(m.max(), 0);
    assert_eq!(m.len(), 8);
}

#[test]
fn matches_a_plain_maximum() {
    let len = 13;
    let mut m = IncrementalMax::new(len);
    let mut plain = vec![0u32; len + 1];
    let mut x: u32 = 12345;
    for step in 0..200 {
        x = x.wrapping_mul(1103515245).wrapping_add(12345);
        let i = (x as usize >> 8) % (len + 1);
        let v = (x >> 4) % 1000;
        m.set(i, v);
        plain[i] = v;
        assert_eq!(m.max(), *plain.iter().max().unwrap(), "step {step}");
    }
}

#[test]
fn float_magnitudes_order_as_bits() {
    // Non-negative finite samples keep their order as bit patterns.
    let mut m = IncrementalMax::new(4);
    m.set(0, 0.5f32.to_bits());
    m.set(1, 0.25f32.to_bits());
    m.set(2, 1.5f32.to_bits());
    assert_eq!(f32::from_bits(m.max()), 1.5);
}

#[test]
fn clone_keeps_every_slot() {
    let mut m = IncrementalMax::new(5);
    m.set(3, 40);
    m.set(1, 7);
    let mut c = m.clone();
    assert_eq!(c.len(), 5);
    assert_eq!(c.max(), 40);
    c.set(3, 2);
    assert_eq!(c.max(), 7);
    assert_eq!(m.max(), 40);
}

#[test]
fn max_tracks_last_writes_since_clear() {
    let mut m = IncrementalMax::new(4);
    m.set(0, 5);
    m.set(2, 9);
    m.set(2, 1);
    assert_eq!(m.max(), 5);
    m.clear();
    assert_eq!(m.max(), 0);
    m.set(3, 4);
    assert_eq!(m.max(), 4);
}
