use roguelike::Health;

#[test]
fn hits_count_down_to_none() {
    let mut h = Health::new(3);
    assert_eq!(h.hit(), Some(2));
    assert_eq!(h.hit(), Some(1));
    assert_eq!(h.hit(), None);
    assert_eq!(h.0, 0);
}

#[test]
fn hit_below_zero_keeps_counting() {
    let mut h = Health::new(0);
    assert_eq!(h.hit(), Some(-1));
    assert_eq!(h.0, -1);
}
