use entity_sparse_set::{Entity, EntitySparseSet};

#[test]
fn concrete_scenario() {
    let mut set: EntitySparseSet<String> = EntitySparseSet::new();
    set.insert(Entity::from_raw(3), "a".to_string());
    set.insert(Entity::from_raw(0), "b".to_string());
    set.insert(Entity::from_raw(5), "c".to_string());
    assert_eq!(set.get(Entity::from_raw(3)), Some(&"a".to_string()));
    assert_eq!(set.get(Entity::from_raw(0)), Some(&"b".to_string()));
    assert_eq!(set.get(Entity::from_raw(5)), Some(&"c".to_string()));
    assert!(!set.contains(Entity::from_raw(1)));
    assert!(!set.contains(Entity::from_raw(4)));
    set.insert(Entity::from_raw(0), "z".to_string());
    assert_eq!(set.get(Entity::from_raw(0)), Some(&"z".to_string()));
    assert_eq!(set.len(), 3);
    set.clear();
    assert!(!set.contains(Entity::from_raw(3)));
    set.insert(Entity::from_raw(3), "w".to_string());
    assert_eq!(set.get(Entity::from_raw(3)), Some(&"w".to_string()));
}

#[test]
fn round_trip_most_recent_value_wins() {
    let mut set: EntitySparseSet<u64> = EntitySparseSet::new();
    let ids: [u32; 5] = [9, 0, 4, 17, 2];
    for (n, &i) in ids.iter().enumerate() {
        set.insert(Entity::from_raw(i), n as u64);
        assert_eq!(set.get(Entity::from_raw(i)), Some(&(n as u64)));
    }
    for (n, &i) in ids.iter().enumerate() {
        assert_eq!(set.get(Entity::from_raw(i)), Some(&(n as u64)));
        set.insert(Entity::from_raw(i), 100 + n as u64);
        assert_eq!(set.get(Entity::from_raw(i)), Some(&(100 + n as u64)));
    }
}

#[test]
fn contains_agrees_with_get_in_every_state() {
    let mut set: EntitySparseSet<i32> = EntitySparseSet::new();
    let check = |set: &EntitySparseSet<i32>| {
        for i in 0..32u32 {
            let e = Entity::from_raw(i);
            assert_eq!(set.contains(e), set.get(e).is_some());
        }
    };
    check(&set);
    set.insert(Entity::from_raw(7), -1);
    check(&set);
    set.insert(Entity::from_raw(0), 5);
    check(&set);
    set.insert(Entity::from_raw(7), 8);
    check(&set);
    set.clear();
    check(&set);
    set.insert(Entity::from_raw(30), 2);
    check(&set);
}

#[test]
fn overwrite_keeps_dense_length() {
    let mut set: EntitySparseSet<&'static str> = EntitySparseSet::new();
    set.insert(Entity::from_raw(6), "first");
    let len_before = set.len();
    set.insert(Entity::from_raw(6), "second");
    assert_eq!(set.len(), len_before);
    assert_eq!(set.get(Entity::from_raw(6)), Some(&"second"));
}

#[test]
fn clear_resets_fully() {
    let mut set: EntitySparseSet<u8> = EntitySparseSet::new();
    let ids: [u32; 4] = [1, 12, 3, 25];
    for &i in ids.iter() {
        set.insert(Entity::from_raw(i), i as u8);
    }
    set.clear();
    assert_eq!(set.len(), 0);
    for &i in ids.iter() {
        assert!(!set.contains(Entity::from_raw(i)));
        assert_eq!(set.get(Entity::from_raw(i)), None);
    }
    set.insert(Entity::from_raw(12), 99);
    assert_eq!(set.len(), 1);
    assert_eq!(set.get(Entity::from_raw(12)), Some(&99));
}

#[test]
fn bulk_matches_sequential() {
    let ids: [u32; 4] = [8, 2, 11, 0];
    let vals: [&'static str; 4] = ["p", "q", "r", "s"];
    let entities: Vec<Entity> = ids.iter().map(|&i| Entity::from_raw(i)).collect();

    let mut bulk: EntitySparseSet<&'static str> = EntitySparseSet::new();
    bulk.insert_from_slice_unique(&entities, vals.to_vec());

    let mut seq: EntitySparseSet<&'static str> = EntitySparseSet::new();
    for (e, v) in entities.iter().zip(vals.iter()) {
        seq.insert(*e, *v);
    }

    assert_eq!(bulk.len(), seq.len());
    for i in 0..16u32 {
        let e = Entity::from_raw(i);
        assert_eq!(bulk.contains(e), seq.contains(e));
        assert_eq!(bulk.get(e), seq.get(e));
    }
}

#[test]
fn bulk_of_nothing_changes_nothing() {
    let mut set: EntitySparseSet<u16> = EntitySparseSet::new();
    set.insert(Entity::from_raw(4), 44);
    set.insert_from_slice_unique(&[], Vec::new());
    assert_eq!(set.len(), 1);
    assert_eq!(set.get(Entity::from_raw(4)), Some(&44));
}

#[test]
fn bulk_on_top_of_existing_entries() {
    let mut set: EntitySparseSet<u64> = EntitySparseSet::new();
    set.insert(Entity::from_raw(1), 10);
    set.insert(Entity::from_raw(5), 50);
    let entities = vec![Entity::from_raw(0), Entity::from_raw(9), Entity::from_raw(3)];
    set.insert_from_slice_unique(&entities, vec![100, 900, 300]);
    assert_eq!(set.len(), 5);
    assert_eq!(set.get(Entity::from_raw(1)), Some(&10));
    assert_eq!(set.get(Entity::from_raw(5)), Some(&50));
    assert_eq!(set.get(Entity::from_raw(0)), Some(&100));
    assert_eq!(set.get(Entity::from_raw(9)), Some(&900));
    assert_eq!(set.get(Entity::from_raw(3)), Some(&300));
    assert!(!set.contains(Entity::from_raw(2)));
}

#[test]
fn sparse_growth_fills_with_absent() {
    let mut set: EntitySparseSet<bool> = EntitySparseSet::new();
    set.insert(Entity::from_raw(1000), true);
    assert_eq!(set.len(), 1);
    assert_eq!(set.get(Entity::from_raw(1000)), Some(&true));
    for i in 0..1000u32 {
        assert!(!set.contains(Entity::from_raw(i)));
        assert_eq!(set.get(Entity::from_raw(i)), None);
    }
    set.insert(Entity::from_raw(0), false);
    assert_eq!(set.len(), 2);
    assert_eq!(set.get(Entity::from_raw(0)), Some(&false));
}

#[test]
fn default_is_empty() {
    let set: EntitySparseSet<String> = EntitySparseSet::default();
    assert_eq!(set.len(), 0);
    assert!(!set.contains(Entity::from_raw(0)));
    assert_eq!(set.get(Entity::from_raw(0)), None);
}
