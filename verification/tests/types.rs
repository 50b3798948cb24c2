use entity_sparse_set::{DenseIndex, Entity};

#[test]
fn entity_exposes_its_raw_index() {
    assert_eq!(Entity::from_raw(0).index(), 0);
    assert_eq!(Entity::from_raw(42).index(), 42);
    assert_eq!(Entity::from_raw(u32::MAX).index(), u32::MAX);
}

#[test]
fn dense_index_refuses_the_sentinel() {
    assert!(DenseIndex::new(u32::MAX).is_none());
    let d = DenseIndex::new(u32::MAX - 1).expect("one below the sentinel is a valid position");
    assert_eq!(d.get(), u32::MAX - 1);
    let z = DenseIndex::new(0).expect("zero is a valid position");
    assert_eq!(z.get(), 0);
}
